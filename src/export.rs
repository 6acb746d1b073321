//! Export of a rendered RGBA buffer as PNG bytes, and the way back.
//!
//! PNG stores the three colour channels; alpha is dropped on export and
//! set opaque again on import. Writing the bytes to a file is the caller's
//! business.

use vstd::prelude::*;

verus! {

/// The RGB bytes of an RGBA byte sequence: every fourth byte dropped.
pub open spec fn strip_alpha(rgba: Seq<u8>) -> Seq<u8> {
    Seq::new((rgba.len() / 4 * 3) as nat, |i: int| rgba[(i / 3) * 4 + i % 3])
}

/// The RGBA bytes of an RGB byte sequence, fully opaque.
pub open spec fn add_alpha(rgb: Seq<u8>) -> Seq<u8> {
    Seq::new(
        (rgb.len() / 3 * 4) as nat,
        |i: int|
            if i % 4 == 3 {
                255u8
            } else {
                rgb[(i / 4) * 3 + i % 4]
            },
    )
}

/// The PNG file (8-bit RGB, default compression and filtering) of a
/// `width` by `height` image with the given RGB bytes.
pub uninterp spec fn png_encoding(width: u32, height: u32, rgb: Seq<u8>) -> Seq<u8>;

#[verifier::external_type_specification]
#[verifier::external_body]
pub struct ExImageError(image::ImageError);

/// Why an export produced no file contents.
#[derive(Clone, Copy, PartialEq, Eq, Debug, Structural)]
pub enum ExportError {
    /// The buffer does not hold width * height * 4 bytes.
    SizeMismatch,
    /// Width or height is zero: PNG has no empty images.
    EmptyImage,
    /// The encoder reported a failure; it has none to report for a buffer
    /// of the right length with non-zero sides.
    Encoding,
}

/// Relies on image's `PngEncoder::write_image` with `ColorType::Rgb8`,
/// writing into a byte vector: it panics unless the buffer holds exactly
/// width * height * 3 bytes, and the png writer it drives refuses a zero
/// width or height and fails otherwise only on an invalid colour type and
/// depth pair (8-bit RGB is valid), a length mismatch or a failed write
/// (a byte vector does not fail). What it writes depends on its arguments
/// alone.
#[verifier::external_body]
fn png_encode(width: u32, height: u32, rgb: &Vec<u8>) -> (r: Result<Vec<u8>, image::ImageError>)
    requires
        rgb.len() == width * height * 3,
    ensures
        r is Ok ==> r->Ok_0@ == png_encoding(width, height, rgb@),
        width == 0 || height == 0 ==> r is Err,
        width > 0 && height > 0 ==> r is Ok,
{
    let mut out: Vec<u8> = Vec::new();
    let encoder = image::codecs::png::PngEncoder::new(&mut out);
    match image::ImageEncoder::write_image(encoder, rgb, width, height, image::ColorType::Rgb8) {
        Ok(()) => Ok(out),
        Err(e) => Err(e),
    }
}

/// The RGB bytes of an RGBA buffer, in pixel order.
pub fn rgb_channels(rgba: &Vec<u8>) -> (r: Vec<u8>)
    requires
        rgba.len() % 4 == 0,
    ensures
        r@ == strip_alpha(rgba@),
{
    let n = rgba.len() / 4;
    let mut out: Vec<u8> = Vec::new();
    let mut p: usize = 0;
    while p < n
        invariant
            n == rgba.len() / 4,
            rgba.len() % 4 == 0,
            p <= n,
            out.len() == 3 * p,
            forall|i: int| 0 <= i < out.len() ==> #[trigger] out[i] == rgba[(i / 3) * 4 + i % 3],
        decreases n - p,
    {
        let ghost before = out@;
        out.push(rgba[4 * p]);
        out.push(rgba[4 * p + 1]);
        out.push(rgba[4 * p + 2]);
        proof {
            assert forall|i: int| 0 <= i < out.len() implies #[trigger] out[i] == rgba[(i / 3) * 4 + i % 3] by {
                if i >= 3 * p {
                    assert(i / 3 == p && i % 3 == i - 3 * p);
                } else {
                    assert(out[i] == before[i]);
                }
            }
        }
        p = p + 1;
    }
    proof {
        assert(out@ =~= strip_alpha(rgba@));
    }
    out
}

/// The opaque RGBA buffer of RGB bytes, in pixel order.
pub fn rgba_from_rgb(rgb: &Vec<u8>) -> (r: Vec<u8>)
    requires
        rgb.len() % 3 == 0,
        rgb.len() / 3 * 4 <= usize::MAX,
    ensures
        r@ == add_alpha(rgb@),
{
    let n = rgb.len() / 3;
    let mut out: Vec<u8> = Vec::new();
    let mut p: usize = 0;
    while p < n
        invariant
            n == rgb.len() / 3,
            rgb.len() % 3 == 0,
            n * 4 <= usize::MAX,
            p <= n,
            out.len() == 4 * p,
            forall|i: int|
                0 <= i < out.len() ==> #[trigger] out[i] == (if i % 4 == 3 {
                    255u8
                } else {
                    rgb[(i / 4) * 3 + i % 4]
                }),
        decreases n - p,
    {
        let ghost before = out@;
        out.push(rgb[3 * p]);
        out.push(rgb[3 * p + 1]);
        out.push(rgb[3 * p + 2]);
        out.push(255);
        proof {
            assert forall|i: int| 0 <= i < out.len() implies #[trigger] out[i] == (if i % 4 == 3 {
                255u8
            } else {
                rgb[(i / 4) * 3 + i % 4]
            }) by {
                if i >= 4 * p {
                    assert(i / 4 == p && i % 4 == i - 4 * p);
                } else {
                    assert(out[i] == before[i]);
                }
            }
        }
        p = p + 1;
    }
    proof {
        assert(out@ =~= add_alpha(rgb@));
    }
    out
}

/// PNG file contents for a `width` by `height` RGBA buffer. The buffer
/// must hold exactly width * height * 4 bytes and both sides must be
/// non-zero; then the export succeeds.
pub fn export_png(rgba: &Vec<u8>, width: u32, height: u32) -> (r: Result<Vec<u8>, ExportError>)
    ensures
        rgba.len() != width * height * 4 <==> r == Err::<Vec<u8>, ExportError>(ExportError::SizeMismatch),
        rgba.len() == width * height * 4 && (width == 0 || height == 0) ==> r == Err::<
            Vec<u8>,
            ExportError,
        >(ExportError::EmptyImage),
        rgba.len() == width * height * 4 && width > 0 && height > 0 ==> r is Ok,
        r is Ok ==> r->Ok_0@ == png_encoding(width, height, strip_alpha(rgba@)),
{
    let w = width as usize;
    let h = height as usize;
    let expected = match w.checked_mul(h) {
        Some(n) => n.checked_mul(4),
        None => None,
    };
    let matches = match expected {
        Some(n) => rgba.len() == n,
        None => {
            proof {
                if w * h <= usize::MAX {
                    assert(w * h * 4 > usize::MAX);
                } else {
                    assert(w * h * 4 >= w * h) by (nonlinear_arith)
                        requires
                            w * h >= 0,
                    ;
                }
            }
            false
        },
    };
    if !matches {
        return Err(ExportError::SizeMismatch);
    }
    if width == 0 || height == 0 {
        return Err(ExportError::EmptyImage);
    }
    let rgb = rgb_channels(rgba);
    proof {
        assert(rgb.len() == width * height * 3) by (nonlinear_arith)
            requires
                rgb.len() == rgba.len() / 4 * 3,
                rgba.len() == width * height * 4,
        ;
    }
    match png_encode(width, height, &rgb) {
        Ok(bytes) => Ok(bytes),
        Err(_) => Err(ExportError::Encoding),
    }
}

/// Export then import keeps every pixel's colour channels; alpha comes
/// back opaque.
pub proof fn lemma_export_import_keeps_rgb(rgba: Seq<u8>)
    requires
        rgba.len() % 4 == 0,
    ensures
        add_alpha(strip_alpha(rgba)).len() == rgba.len(),
        forall|i: int|
            0 <= i < rgba.len() && i % 4 != 3 ==> #[trigger] add_alpha(strip_alpha(rgba))[i]
                == rgba[i],
        forall|i: int|
            0 <= i < rgba.len() && i % 4 == 3 ==> #[trigger] add_alpha(strip_alpha(rgba))[i]
                == 255,
{
    let s = strip_alpha(rgba);
    assert(s.len() == rgba.len() / 4 * 3);
    assert(s.len() / 3 * 4 == rgba.len());
    assert forall|i: int| 0 <= i < rgba.len() && i % 4 != 3 implies #[trigger] add_alpha(s)[i] == rgba[i] by {
        let j = (i / 4) * 3 + i % 4;
        assert(0 <= j < s.len());
        assert(j / 3 == i / 4 && j % 3 == i % 4);
        assert((i / 4) * 4 + i % 4 == i);
    }
}

} // verus!
