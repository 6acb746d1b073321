//! Raster assembly: the full-resolution RGBA buffer from the colours of a
//! (possibly downsampled) evaluation grid, and the rule that a buffer of
//! the wrong length is never shown.

use vstd::prelude::*;
use vstd::arithmetic::div_mod::lemma_fundamental_div_mod_converse;
use vstd::arithmetic::mul::lemma_mul_inequality;

verus! {

/// An RGB colour.
pub type Rgb = (u8, u8, u8);

/// Coarse rendering quality: full, half or quarter linear resolution.
#[derive(Clone, Copy, PartialEq, Eq, Debug, Structural)]
pub enum QualityLevel {
    Low,
    Medium,
    High,
}

pub open spec fn scale_of(q: QualityLevel) -> usize {
    match q {
        QualityLevel::Low => 4,
        QualityLevel::Medium => 2,
        QualityLevel::High => 1,
    }
}

impl QualityLevel {
    /// The linear downsampling factor of this level.
    pub fn scale(&self) -> (r: usize)
        ensures
            r == scale_of(*self),
    {
        match self {
            QualityLevel::Low => 4,
            QualityLevel::Medium => 2,
            QualityLevel::High => 1,
        }
    }
}

/// Length in bytes of an RGBA buffer of `width` by `height` pixels.
pub open spec fn buffer_len(width: nat, height: nat) -> nat {
    width * height * 4
}

/// Byte `i` of the assembled buffer: pixel `(x, y)` takes the colour of
/// grid point `(x / scale, y / scale)` with full alpha; pixels beyond the
/// last whole block stay zero.
pub open spec fn raster_byte(width: nat, height: nat, scale: nat, colors: Seq<Rgb>, i: int) -> u8 {
    let p = i / 4;
    let x = p % (width as int);
    let y = p / (width as int);
    let sw = width / scale;
    let sh = height / scale;
    let gx = x / (scale as int);
    let gy = y / (scale as int);
    if gx < sw && gy < sh {
        let c = colors[gy * sw + gx];
        if i % 4 == 0 {
            c.0
        } else if i % 4 == 1 {
            c.1
        } else if i % 4 == 2 {
            c.2
        } else {
            255
        }
    } else {
        0
    }
}

/// The size of the evaluation grid at linear downsampling `scale`.
pub fn grid_size(width: usize, height: usize, scale: usize) -> (r: (usize, usize))
    requires
        scale >= 1,
    ensures
        r.0 == width / scale,
        r.1 == height / scale,
{
    (width / scale, height / scale)
}

proof fn lemma_grid_index(gx: int, gy: int, sw: int, sh: int)
    requires
        0 <= gx < sw,
        0 <= gy < sh,
    ensures
        0 <= gy * sw + gx < sw * sh,
{
    lemma_mul_inequality(gy + 1, sh, sw);
    assert((gy + 1) * sw == gy * sw + sw) by (nonlinear_arith);
    assert(sh * sw == sw * sh) by (nonlinear_arith);
    assert(gy * sw >= 0) by (nonlinear_arith)
        requires
            gy >= 0,
            sw >= 0,
    ;
}

/// Fills the `width` by `height` RGBA buffer from the colours of the grid
/// of `(width / scale) * (height / scale)` points, row by row: each colour
/// is replicated into its `scale` by `scale` block with alpha 255.
pub fn assemble_buffer(width: usize, height: usize, scale: usize, colors: &Vec<Rgb>) -> (r: Vec<u8>)
    requires
        scale >= 1,
        colors.len() == (width / scale) * (height / scale),
        width * height * 4 <= usize::MAX,
    ensures
        r.len() == buffer_len(width as nat, height as nat),
        forall|i: int|
            0 <= i < r.len() ==> #[trigger] r[i] == raster_byte(
                width as nat,
                height as nat,
                scale as nat,
                colors@,
                i,
            ),
{
    let sw = width / scale;
    let sh = height / scale;
    let total = width * height;
    let mut out: Vec<u8> = Vec::new();
    let mut p: usize = 0;
    while p < total
        invariant
            scale >= 1,
            sw == width / scale,
            sh == height / scale,
            colors.len() == sw * sh,
            total == width * height,
            total * 4 <= usize::MAX,
            p <= total,
            out.len() == 4 * p,
            forall|i: int|
                0 <= i < out.len() ==> #[trigger] out[i] == raster_byte(
                    width as nat,
                    height as nat,
                    scale as nat,
                    colors@,
                    i,
                ),
        decreases total - p,
    {
        let x = p % width;
        let y = p / width;
        let gx = x / scale;
        let gy = y / scale;
        let ghost before = out@;
        if gx < sw && gy < sh {
            proof {
                lemma_grid_index(gx as int, gy as int, sw as int, sh as int);
            }
            let c = colors[gy * sw + gx];
            out.push(c.0);
            out.push(c.1);
            out.push(c.2);
            out.push(255);
        } else {
            out.push(0);
            out.push(0);
            out.push(0);
            out.push(0);
        }
        proof {
            assert forall|i: int| 0 <= i < out.len() implies #[trigger] out[i] == raster_byte(
                width as nat,
                height as nat,
                scale as nat,
                colors@,
                i,
            ) by {
                if i >= 4 * p {
                    let k = i - 4 * p;
                    lemma_fundamental_div_mod_converse(i, 4, p as int, k);
                } else {
                    assert(out[i] == before[i]);
                }
            }
        }
        p = p + 1;
    }
    proof {
        assert(4 * total == width * height * 4) by (nonlinear_arith)
            requires
                total == width * height,
        ;
    }
    out
}

/// A buffer of `n` zero bytes.
pub fn blank_buffer(n: usize) -> (r: Vec<u8>)
    ensures
        r@ == Seq::new(n as nat, |i: int| 0u8),
{
    let mut out: Vec<u8> = Vec::new();
    let mut k: usize = 0;
    while k < n
        invariant
            k <= n,
            out@ == Seq::new(k as nat, |i: int| 0u8),
        decreases n - k,
    {
        out.push(0);
        k = k + 1;
        proof {
            assert(out@ =~= Seq::new(k as nat, |i: int| 0u8));
        }
    }
    out
}

/// Installs a freshly rendered buffer for a `width` by `height` display.
/// It replaces the displayed one only when it has exactly the length those
/// pixels need; otherwise it is discarded, and the displayed buffer is kept
/// if it has that length, or else blanked to that length, so that what is
/// shown is never a buffer of the wrong size.
pub fn accept_render(displayed: &mut Vec<u8>, fresh: Vec<u8>, width: usize, height: usize) -> (r: bool)
    ensures
        r == (fresh.len() == buffer_len(width as nat, height as nat)),
        r ==> final(displayed)@ == fresh@,
        !r && old(displayed).len() == buffer_len(width as nat, height as nat) ==> final(displayed)@
            == old(displayed)@,
        !r && old(displayed).len() != buffer_len(width as nat, height as nat) && buffer_len(
            width as nat,
            height as nat,
        ) <= usize::MAX ==> final(displayed)@ == Seq::new(
            buffer_len(width as nat, height as nat),
            |i: int| 0u8,
        ),
        buffer_len(width as nat, height as nat) > usize::MAX ==> final(displayed)@
            == old(displayed)@,
        buffer_len(width as nat, height as nat) <= usize::MAX ==> final(displayed).len()
            == buffer_len(width as nat, height as nat),
{
    let expected = match width.checked_mul(height) {
        Some(n) => n.checked_mul(4),
        None => None,
    };
    match expected {
        Some(n) => {
            if fresh.len() == n {
                *displayed = fresh;
                true
            } else {
                if displayed.len() != n {
                    *displayed = blank_buffer(n);
                }
                false
            }
        },
        None => {
            proof {
                if width * height <= usize::MAX {
                    assert(width * height * 4 > usize::MAX);
                } else {
                    assert(width * height * 4 >= width * height) by (nonlinear_arith)
                        requires
                            width * height >= 0,
                    ;
                }
            }
            false
        },
    }
}

} // verus!
