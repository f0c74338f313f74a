//! Decoded pixels and the arithmetic on their size.
use vstd::prelude::*;

verus! {

/// Why a transformation failed.
#[derive(Clone, Copy, Debug, PartialEq, Eq, Structural)]
pub enum ProcessError {
    /// The bytes are not an image that can be read.
    Decode,
    /// The target size cannot be computed or the resampler refused it.
    Resize,
    /// The encoder refused the pixels.
    Encode,
}

/// How pixels lie in memory: 8 bits per channel, with or without alpha.
#[derive(Clone, Copy, Debug, PartialEq, Eq, Structural)]
pub enum PixelLayout {
    Rgb8,
    Rgba8,
}

pub open spec fn channels(layout: PixelLayout) -> nat {
    match layout {
        PixelLayout::Rgb8 => 3,
        PixelLayout::Rgba8 => 4,
    }
}

/// A decoded image: rows of pixels, top to bottom, in the given layout.
pub struct DecodedImage {
    pub width: u32,
    pub height: u32,
    pub layout: PixelLayout,
    pub pixels: Vec<u8>,
}

impl DecodedImage {
    /// The buffer holds exactly one pixel per position.
    pub open spec fn wf(&self) -> bool {
        self.pixels@.len() == self.width * self.height * channels(self.layout)
    }
}

/// `h0 * w / w0` rounded to the nearest integer, halves upward.
pub open spec fn rounded_height(w0: nat, h0: nat, w: nat) -> nat
    recommends
        w0 > 0,
{
    (2 * h0 * w + w0) / (2 * w0)
}

/// The height that keeps the aspect ratio at width `w`, never below 1.
pub open spec fn target_height(w0: nat, h0: nat, w: nat) -> nat {
    if rounded_height(w0, h0, w) == 0 {
        1
    } else {
        rounded_height(w0, h0, w)
    }
}

/// The size of a `w0 x h0` image scaled to width `width`.
pub fn scaled_size(w0: u32, h0: u32, width: u32) -> (r: Result<(u32, u32), ProcessError>)
    ensures
        (w0 == 0 || width == 0 || target_height(w0 as nat, h0 as nat, width as nat) > u32::MAX)
            ==> r == Err::<(u32, u32), ProcessError>(ProcessError::Resize),
        !(w0 == 0 || width == 0 || target_height(w0 as nat, h0 as nat, width as nat) > u32::MAX)
            ==> r == Ok::<(u32, u32), ProcessError>(
            (width, target_height(w0 as nat, h0 as nat, width as nat) as u32),
        ),
{
    if w0 == 0 || width == 0 {
        return Err(ProcessError::Resize);
    }
    assert(h0 as nat * width as nat <= 0xffff_ffff_ffff_ffff) by (nonlinear_arith)
        requires
            h0 <= 0xffff_ffff,
            width <= 0xffff_ffff,
    ;
    let a: u128 = h0 as u128 * width as u128;
    let n: u128 = 2 * a + w0 as u128;
    let rounded: u128 = n / (2 * w0 as u128);
    assert(2 * h0 * width + w0 == n) by (nonlinear_arith)
        requires
            a == h0 as nat * width as nat,
            n == 2 * a + w0,
    ;
    assert(rounded == rounded_height(w0 as nat, h0 as nat, width as nat));
    let h: u128 = if rounded == 0 { 1 } else { rounded };
    if h > u32::MAX as u128 {
        Err(ProcessError::Resize)
    } else {
        Ok((width, h as u32))
    }
}

/// RGB pixels with an opaque alpha channel added to each.
pub open spec fn with_alpha(rgb: Seq<u8>) -> Seq<u8> {
    Seq::new(rgb.len() / 3 * 4, |j: int| if j % 4 == 3 { 255u8 } else { rgb[(j / 4) * 3 + j % 4] })
}

/// RGBA pixels with the alpha channel of each removed.
pub open spec fn without_alpha(rgba: Seq<u8>) -> Seq<u8> {
    Seq::new(rgba.len() / 4 * 3, |j: int| rgba[(j / 3) * 4 + j % 3])
}

/// `rgba` is `rgb` with an opaque alpha channel added to each pixel.
pub open spec fn alpha_added(rgb: Seq<u8>, rgba: Seq<u8>, n: nat) -> bool {
    &&& rgb.len() == 3 * n
    &&& rgba.len() == 4 * n
    &&& forall|i: int, c: int|
        0 <= i < n && 0 <= c < 3 ==> #[trigger] rgba[4 * i + c] == rgb[3 * i + c]
    &&& forall|i: int| 0 <= i < n ==> #[trigger] rgba[4 * i + 3] == 255
}

/// `rgb` is `rgba` with the alpha channel of each pixel removed.
pub open spec fn alpha_dropped(rgba: Seq<u8>, rgb: Seq<u8>, n: nat) -> bool {
    &&& rgba.len() == 4 * n
    &&& rgb.len() == 3 * n
    &&& forall|i: int, c: int|
        0 <= i < n && 0 <= c < 3 ==> #[trigger] rgb[3 * i + c] == rgba[4 * i + c]
}

/// Adds an opaque alpha channel to `n` RGB pixels.
pub fn add_alpha(rgb: &[u8], n: usize) -> (r: Vec<u8>)
    requires
        rgb@.len() == 3 * n,
        4 * n <= usize::MAX,
    ensures
        alpha_added(rgb@, r@, n as nat),
        r@ == with_alpha(rgb@),
{
    let mut out: Vec<u8> = Vec::with_capacity(4 * n);
    let mut i: usize = 0;
    while i < n
        invariant
            rgb@.len() == 3 * n,
            4 * n <= usize::MAX,
            i <= n,
            out@.len() == 4 * i,
            forall|k: int, c: int|
                0 <= k < i && 0 <= c < 3 ==> #[trigger] out@[4 * k + c] == rgb@[3 * k + c],
            forall|k: int| 0 <= k < i ==> #[trigger] out@[4 * k + 3] == 255,
        decreases n - i,
    {
        out.push(rgb[3 * i]);
        out.push(rgb[3 * i + 1]);
        out.push(rgb[3 * i + 2]);
        out.push(255);
        assert forall|k: int, c: int| 0 <= k <= i && 0 <= c < 3 implies #[trigger] out@[4 * k + c]
            == rgb@[3 * k + c] by {
            if k == i {
                assert(c == 0 || c == 1 || c == 2);
            }
        }
        i = i + 1;
    }
    assert forall|j: int| 0 <= j < out@.len() implies out@[j] == with_alpha(rgb@)[j] by {
        let k = j / 4;
        let c = j % 4;
        assert(j == 4 * k + c);
        if c < 3 {
            assert(out@[4 * k + c] == rgb@[3 * k + c]);
        } else {
            assert(out@[4 * k + 3] == 255);
        }
    }
    assert(out@ =~= with_alpha(rgb@));
    out
}

/// Removes the alpha channel of `n` RGBA pixels.
pub fn drop_alpha(rgba: &[u8], n: usize) -> (r: Vec<u8>)
    requires
        rgba@.len() == 4 * n,
        4 * n <= usize::MAX,
    ensures
        alpha_dropped(rgba@, r@, n as nat),
        r@ == without_alpha(rgba@),
{
    let mut out: Vec<u8> = Vec::with_capacity(3 * n);
    let mut i: usize = 0;
    while i < n
        invariant
            rgba@.len() == 4 * n,
            4 * n <= usize::MAX,
            i <= n,
            out@.len() == 3 * i,
            forall|k: int, c: int|
                0 <= k < i && 0 <= c < 3 ==> #[trigger] out@[3 * k + c] == rgba@[4 * k + c],
        decreases n - i,
    {
        out.push(rgba[4 * i]);
        out.push(rgba[4 * i + 1]);
        out.push(rgba[4 * i + 2]);
        assert forall|k: int, c: int| 0 <= k <= i && 0 <= c < 3 implies #[trigger] out@[3 * k + c]
            == rgba@[4 * k + c] by {
            if k == i {
                assert(c == 0 || c == 1 || c == 2);
            }
        }
        i = i + 1;
    }
    assert forall|j: int| 0 <= j < out@.len() implies out@[j] == without_alpha(rgba@)[j] by {
        let k = j / 3;
        let c = j % 3;
        assert(j == 3 * k + c);
        assert(out@[3 * k + c] == rgba@[4 * k + c]);
    }
    assert(out@ =~= without_alpha(rgba@));
    out
}

} // verus!
