//! The degradations scanning introduces, applied to a clean render: the parts
//! that are integer logic (the ground estimate, the JPEG quality handling and
//! the quality ranges a scan is drawn from).
use image::ImageEncoder;
use rand::Rng;
use vstd::prelude::*;

verus! {

#[verifier::external_type_specification]
#[verifier::external_body]
pub struct ExStdRng(rand::rngs::StdRng);

/// A grey crop as plain values: `pixels` holds the rows top to bottom, one
/// byte per pixel.
#[derive(Debug, Clone, PartialEq, Eq)]
pub struct GrayPixels {
    pub width: u32,
    pub height: u32,
    pub pixels: Vec<u8>,
}

impl GrayPixels {
    /// The buffer holds exactly one byte per pixel.
    pub open spec fn wf(&self) -> bool {
        self.pixels@.len() == self.width * self.height
    }
}

/// How badly the page was scanned. Named rather than numeric because the
/// ranges are an empirical claim about real scans.
#[derive(Debug, Clone, Copy, PartialEq, Eq, Structural)]
pub enum ScanQuality {
    /// A clean digital release: mild recompression, near-square placement.
    Typical,
    /// A hand-scanned or multiply-recompressed copy.
    Poor,
}

/// How many times `v` occurs in `s`.
pub open spec fn count_of(s: Seq<u8>, v: u8) -> nat
    decreases s.len(),
{
    if s.len() == 0 {
        0
    } else {
        count_of(s.drop_last(), v) + (if s.last() == v { 1nat } else { 0nat })
    }
}

/// `g` is the bright mode of `px`: a value in the upper half of the grey
/// range that occurs at least as often as any other upper-half value, and
/// strictly more often than every brighter one (ties go to the brightest).
pub open spec fn is_bright_mode(px: Seq<u8>, g: u8) -> bool {
    &&& 128 <= g
    &&& forall|v: u8| 128 <= v ==> count_of(px, v) <= count_of(px, g)
    &&& forall|v: u8| g < v ==> count_of(px, v) < count_of(px, g)
}

/// The bright mode is unique: the contract of `estimate_ground` pins its
/// result down.
pub proof fn lemma_bright_mode_unique(px: Seq<u8>, g1: u8, g2: u8)
    requires
        is_bright_mode(px, g1),
        is_bright_mode(px, g2),
    ensures
        g1 == g2,
{
    if g1 < g2 {
        assert(count_of(px, g2) < count_of(px, g1));
        assert(count_of(px, g1) <= count_of(px, g2));
    } else if g2 < g1 {
        assert(count_of(px, g1) < count_of(px, g2));
        assert(count_of(px, g2) <= count_of(px, g1));
    }
}

proof fn lemma_count_of_bound(s: Seq<u8>, v: u8)
    ensures
        count_of(s, v) <= s.len(),
    decreases s.len(),
{
    if s.len() > 0 {
        lemma_count_of_bound(s.drop_last(), v);
    }
}

/// The modal bright value, which for a balloon crop is the interior.
/// Only values 128 and above are candidates: the ground is the bright mode and
/// ink is the dark one. Among equally frequent candidates the brightest wins.
pub fn estimate_ground(pixels: &[u8]) -> (g: u8)
    ensures
        is_bright_mode(pixels@, g),
{
    let mut hist: Vec<usize> = Vec::new();
    let mut k: usize = 0;
    while k < 256
        invariant
            k <= 256,
            hist@.len() == k,
            forall|j: int| 0 <= j < k ==> hist@[j] == 0,
        decreases 256 - k,
    {
        hist.push(0);
        k = k + 1;
    }
    let n = pixels.len();
    let mut i: usize = 0;
    while i < n
        invariant
            n == pixels@.len(),
            i <= n,
            hist@.len() == 256,
            forall|v: u8| #[trigger] hist@[v as int] == count_of(pixels@.take(i as int), v),
        decreases n - i,
    {
        let p = pixels[i];
        proof {
            assert(pixels@.take(i + 1).drop_last() =~= pixels@.take(i as int));
            lemma_count_of_bound(pixels@.take(i as int), p);
        }
        let c = hist[p as usize];
        hist.set(p as usize, c + 1);
        i = i + 1;
        proof {
            assert forall|v: u8| #[trigger] hist@[v as int] == count_of(pixels@.take(i as int), v) by {
                assert(pixels@.take(i as int).drop_last() =~= pixels@.take(i - 1));
                if v != p {
                    assert(hist@[v as int] == count_of(pixels@.take(i - 1), v));
                }
            }
        }
    }
    assert(pixels@.take(n as int) =~= pixels@);
    let mut best: usize = 128;
    let mut v: usize = 129;
    while v < 256
        invariant
            hist@.len() == 256,
            forall|w: u8| #[trigger] hist@[w as int] == count_of(pixels@, w),
            128 <= best < v <= 256,
            forall|w: int| 128 <= w < v ==> hist@[w] <= hist@[best as int],
            forall|w: int| best < w < v ==> hist@[w] < hist@[best as int],
        decreases 256 - v,
    {
        if hist[v] >= hist[best] {
            best = v;
        }
        v = v + 1;
    }
    let g = best as u8;
    proof {
        assert forall|w: u8| 128 <= w implies count_of(pixels@, w) <= count_of(pixels@, g) by {
            assert(hist@[w as int] == count_of(pixels@, w));
            assert(hist@[g as int] == count_of(pixels@, g));
        }
        assert forall|w: u8| g < w implies count_of(pixels@, w) < count_of(pixels@, g) by {
            assert(hist@[w as int] == count_of(pixels@, w));
            assert(hist@[g as int] == count_of(pixels@, g));
        }
    }
    g
}

/// The inclusive range of JPEG quality a scan of this quality is drawn from.
pub open spec fn jpeg_quality_range(quality: ScanQuality) -> (u8, u8) {
    match quality {
        ScanQuality::Typical => (55, 92),
        ScanQuality::Poor => (22, 55),
    }
}

/// `rand::Rng::gen_range` on an inclusive `u8` range of a `StdRng`.
/// Its documentation promises a value inside the range and a panic on an
/// empty range, which `requires` excludes. Which value comes out depends on
/// the generator's state and is not stated; neither is the new state.
#[verifier::external_body]
fn draw_u8(rng: &mut rand::rngs::StdRng, lo: u8, hi: u8) -> (r: u8)
    requires
        lo <= hi,
    ensures
        lo <= r <= hi,
{
    rng.gen_range(lo..=hi)
}

/// The JPEG quality of a plausible scan at `quality`: the first draw that
/// sampling a degradation makes from `rng`.
pub fn sample_jpeg_quality(rng: &mut rand::rngs::StdRng, quality: ScanQuality) -> (q: u8)
    ensures
        jpeg_quality_range(quality).0 <= q <= jpeg_quality_range(quality).1,
{
    match quality {
        ScanQuality::Typical => draw_u8(rng, 55, 92),
        ScanQuality::Poor => draw_u8(rng, 22, 55),
    }
}

/// What `image`'s JPEG encoder does with a grey image of these dimensions
/// and pixels at this quality: the bytes it writes, or the text of the error
/// it reports.
pub uninterp spec fn jpeg_encoding(width: u32, height: u32, pixels: Seq<u8>, quality: u8) -> Result<
    Seq<u8>,
    Seq<char>,
>;

/// What `image` decodes from these JPEG bytes, converted to one grey byte per
/// pixel: width, height and pixels, or the text of the error it reports.
pub uninterp spec fn jpeg_decoding(bytes: Seq<u8>) -> Result<(u32, u32, Seq<u8>), Seq<char>>;

/// `image::codecs::jpeg::JpegEncoder::new_with_quality` writing a grey image
/// through `ImageEncoder::write_image` into memory. The encoder is plain
/// integer code, so its bytes, and the text of its error, are named as a
/// function of the arguments; the error comes back prefixed with
/// `jpeg encode: `. It panics on a buffer whose length is not one byte per
/// pixel, which `requires` excludes.
#[verifier::external_body]
fn jpeg_encode(img: &GrayPixels, quality: u8) -> (r: Result<Vec<u8>, String>)
    requires
        img.wf(),
    ensures
        r is Ok <==> jpeg_encoding(img.width, img.height, img.pixels@, quality) is Ok,
        r matches Ok(bytes) ==> jpeg_encoding(img.width, img.height, img.pixels@, quality)->Ok_0 == bytes@,
        r matches Err(e) ==> e@ == "jpeg encode: "@ + jpeg_encoding(
            img.width,
            img.height,
            img.pixels@,
            quality,
        )->Err_0,
{
    let mut buf: Vec<u8> = Vec::new();
    match image::codecs::jpeg::JpegEncoder::new_with_quality(&mut buf, quality).write_image(
        &img.pixels,
        img.width,
        img.height,
        image::ExtendedColorType::L8,
    ) {
        Ok(()) => Ok(buf),
        Err(e) => Err(format!("jpeg encode: {e}")),
    }
}

/// `image::load_from_memory_with_format` with `ImageFormat::Jpeg`, converted
/// with `DynamicImage::to_luma8` to one grey byte per pixel. The decoder is
/// deterministic, so its result, and the text of its error, are named as a
/// function of the bytes; the error comes back prefixed with `jpeg decode: `.
/// Only bytes that the JPEG encoder wrote are admitted (the decoder does not
/// promise to return on arbitrary bytes). The encoder writes the image's width
/// and height into the frame header, and the decoder gives back an image of
/// those dimensions.
#[verifier::external_body]
fn jpeg_decode(bytes: &[u8]) -> (r: Result<GrayPixels, String>)
    requires
        exists|w: u32, h: u32, px: Seq<u8>, q: u8|
            #[trigger] jpeg_encoding(w, h, px, q) is Ok && jpeg_encoding(w, h, px, q)->Ok_0 == bytes@,
    ensures
        r is Ok <==> jpeg_decoding(bytes@) is Ok,
        r matches Ok(img) ==> jpeg_decoding(bytes@)->Ok_0 == (img.width, img.height, img.pixels@),
        r matches Err(e) ==> e@ == "jpeg decode: "@ + jpeg_decoding(bytes@)->Err_0,
        forall|w: u32, h: u32, px: Seq<u8>, q: u8|
            px.len() == w * h && #[trigger] jpeg_encoding(w, h, px, q) is Ok && jpeg_encoding(
                w,
                h,
                px,
                q,
            )->Ok_0 == bytes@ ==> (r matches Ok(img) ==> img.width == w && img.height == h),
{
    match image::load_from_memory_with_format(bytes, image::ImageFormat::Jpeg) {
        Ok(decoded) => {
            let grey = decoded.to_luma8();
            Ok(GrayPixels { width: grey.width(), height: grey.height(), pixels: grey.into_raw() })
        },
        Err(e) => Err(format!("jpeg decode: {e}")),
    }
}

/// The quality handed to the encoder: `quality` brought into 1..=100.
pub open spec fn clamped_quality(quality: u8) -> u8 {
    if quality < 1 {
        1
    } else if quality > 100 {
        100
    } else {
        quality
    }
}

/// What a JPEG round trip of `img` at `quality` yields: the decoding of its
/// encoding at the clamped quality, or the error of the step that failed,
/// prefixed with which step it was.
pub open spec fn jpeg_roundtrip_result(img: GrayPixels, quality: u8) -> Result<
    (u32, u32, Seq<u8>),
    Seq<char>,
> {
    match jpeg_encoding(img.width, img.height, img.pixels@, clamped_quality(quality)) {
        Ok(bytes) => match jpeg_decoding(bytes) {
            Ok(out) => Ok(out),
            Err(msg) => Err("jpeg decode: "@ + msg),
        },
        Err(msg) => Err("jpeg encode: "@ + msg),
    }
}

/// A quality in 1..=100 is handed to the encoder as it is; below 1 the round
/// trip is the one at quality 1, above 100 the one at quality 100.
pub proof fn lemma_jpeg_quality_used(img: GrayPixels, quality: u8)
    ensures
        1 <= quality <= 100 ==> (match jpeg_encoding(img.width, img.height, img.pixels@, quality) {
            Ok(bytes) => match jpeg_decoding(bytes) {
                Ok(out) => jpeg_roundtrip_result(img, quality) == Ok::<(u32, u32, Seq<u8>), Seq<char>>(out),
                Err(msg) => jpeg_roundtrip_result(img, quality) == Err::<(u32, u32, Seq<u8>), Seq<char>>(
                    "jpeg decode: "@ + msg,
                ),
            },
            Err(msg) => jpeg_roundtrip_result(img, quality) == Err::<(u32, u32, Seq<u8>), Seq<char>>(
                "jpeg encode: "@ + msg,
            ),
        }),
        quality < 1 ==> jpeg_roundtrip_result(img, quality) == jpeg_roundtrip_result(img, 1),
        quality > 100 ==> jpeg_roundtrip_result(img, quality) == jpeg_roundtrip_result(img, 100),
{
}

/// Encode to JPEG at `quality` (brought into 1..=100) and decode back, so the
/// crop carries real ringing rather than a simulation of it. An image that
/// comes back keeps the input's width and height.
pub fn jpeg_roundtrip(img: &GrayPixels, quality: u8) -> (r: Result<GrayPixels, String>)
    requires
        img.wf(),
    ensures
        r is Ok <==> jpeg_roundtrip_result(*img, quality) is Ok,
        r matches Ok(out) ==> jpeg_roundtrip_result(*img, quality)->Ok_0 == (out.width, out.height, out.pixels@),
        r matches Err(e) ==> jpeg_roundtrip_result(*img, quality)->Err_0 == e@,
        r matches Ok(out) ==> out.width == img.width && out.height == img.height,
{
    let q = if quality < 1 {
        1
    } else if quality > 100 {
        100
    } else {
        quality
    };
    let bytes = jpeg_encode(img, q)?;
    jpeg_decode(&bytes)
}

} // verus!
