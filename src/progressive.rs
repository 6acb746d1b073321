//! Progressive resolution controller.
//!
//! Time is measured in milliseconds on a monotonic clock that the caller
//! reads and hands in, so the controller itself is a pure state machine.

use vstd::prelude::*;

verus! {

/// Divisor that a reset starts refining from.
pub const INITIAL_RESOLUTION: u32 = 16;

/// Minimum time between two refinement renders, in milliseconds.
pub const MIN_RENDER_INTERVAL_MS: u64 = 50;

/// One halving step, floored at 1.
pub open spec fn halved(r: u32) -> u32 {
    if r > 1 { (r / 2) as u32 } else { r }
}

/// The divisor after `k` refinement steps starting from `start`.
pub open spec fn resolution_after(start: u32, k: nat) -> u32
    decreases k,
{
    if k == 0 { start } else { halved(resolution_after(start, (k - 1) as nat)) }
}

/// Milliseconds from `since` to `now`, or zero if the clock reads earlier.
pub open spec fn elapsed_ms(since: u64, now: u64) -> u64 {
    if now >= since { (now - since) as u64 } else { 0 }
}

pub struct ProgressiveRenderer {
    current_resolution: u32,
    target_resolution: u32,
    is_rendering: bool,
    last_render_ms: u64,
    min_render_interval_ms: u64,
}

impl ProgressiveRenderer {
    pub closed spec fn current(&self) -> u32 {
        self.current_resolution
    }

    pub closed spec fn target(&self) -> u32 {
        self.target_resolution
    }

    pub closed spec fn rendering(&self) -> bool {
        self.is_rendering
    }

    pub closed spec fn last_render(&self) -> u64 {
        self.last_render_ms
    }

    pub closed spec fn min_interval(&self) -> u64 {
        self.min_render_interval_ms
    }

    /// The divisor is never zero.
    pub open spec fn wf(&self) -> bool {
        self.current() >= 1
    }

    /// Settled once the divisor has come down to the target.
    pub open spec fn settled(&self) -> bool {
        self.current() <= self.target()
    }

    /// Whether a tick at time `now` should render.
    pub open spec fn renders_at(&self, now: u64) -> bool {
        self.settled() || elapsed_ms(self.last_render(), now) > self.min_interval()
    }

    /// A controller that starts at the coarsest divisor, with `now_ms` as
    /// the time of the last render.
    pub fn new(target_resolution: u32, now_ms: u64) -> (r: Self)
        ensures
            r.wf(),
            r.current() == INITIAL_RESOLUTION,
            r.target() == target_resolution,
            !r.rendering(),
            r.last_render() == now_ms,
            r.min_interval() == MIN_RENDER_INTERVAL_MS,
    {
        ProgressiveRenderer {
            current_resolution: INITIAL_RESOLUTION,
            target_resolution,
            is_rendering: false,
            last_render_ms: now_ms,
            min_render_interval_ms: MIN_RENDER_INTERVAL_MS,
        }
    }

    /// True when settled, or when more than the minimum interval has passed
    /// since the last render.
    pub fn should_render(&self, now_ms: u64) -> (r: bool)
        ensures
            r == self.renders_at(now_ms),
    {
        let elapsed: u64 = if now_ms >= self.last_render_ms {
            now_ms - self.last_render_ms
        } else {
            0
        };
        self.current_resolution <= self.target_resolution || elapsed > self.min_render_interval_ms
    }

    /// Halves the divisor (floor at 1), stamps the render time and returns
    /// the new divisor.
    pub fn next_resolution(&mut self, now_ms: u64) -> (r: u32)
        ensures
            r == halved(old(self).current()),
            final(self).current() == r,
            old(self).wf() ==> final(self).wf(),
            final(self).target() == old(self).target(),
            final(self).rendering() == old(self).rendering(),
            final(self).last_render() == now_ms,
            final(self).min_interval() == old(self).min_interval(),
    {
        if self.current_resolution > 1 {
            self.current_resolution = self.current_resolution / 2;
        }
        self.last_render_ms = now_ms;
        self.current_resolution
    }

    /// Back to the coarsest divisor, marked as refining.
    pub fn reset(&mut self)
        ensures
            final(self).wf(),
            final(self).current() == INITIAL_RESOLUTION,
            final(self).target() == old(self).target(),
            final(self).rendering(),
            final(self).last_render() == old(self).last_render(),
            final(self).min_interval() == old(self).min_interval(),
    {
        self.current_resolution = INITIAL_RESOLUTION;
        self.is_rendering = true;
    }

    pub fn current_resolution(&self) -> (r: u32)
        ensures
            r == self.current(),
    {
        self.current_resolution
    }

    pub fn target_resolution(&self) -> (r: u32)
        ensures
            r == self.target(),
    {
        self.target_resolution
    }

    pub fn is_rendering(&self) -> (r: bool)
        ensures
            r == self.rendering(),
    {
        self.is_rendering
    }
}

/// From a reset, successive refinement steps give the divisors
/// 16, 8, 4, 2, 1, 1, 1, ...
pub proof fn lemma_refinement_sequence(k: nat)
    ensures
        k == 0 ==> resolution_after(INITIAL_RESOLUTION, k) == 16,
        k == 1 ==> resolution_after(INITIAL_RESOLUTION, k) == 8,
        k == 2 ==> resolution_after(INITIAL_RESOLUTION, k) == 4,
        k == 3 ==> resolution_after(INITIAL_RESOLUTION, k) == 2,
        k >= 4 ==> resolution_after(INITIAL_RESOLUTION, k) == 1,
    decreases k,
{
    reveal_with_fuel(resolution_after, 5);
    if k > 4 {
        lemma_refinement_sequence((k - 1) as nat);
    }
}

/// Once the divisor and the target are both 1, every tick renders.
pub proof fn lemma_settled_always_renders(r: ProgressiveRenderer, now: u64)
    requires
        r.current() == 1,
        r.target() == 1,
    ensures
        r.renders_at(now),
{
}

} // verus!
