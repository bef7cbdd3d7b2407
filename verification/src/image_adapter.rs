//! Raster image conversion (PNG, JPEG, GIF, BMP, WebP, TIFF): the pixel
//! buffer is decoded from the source bytes and re-encoded into the target
//! codec, never renamed. The codecs themselves are handed in by the
//! caller; the library decides the route and lays transparent pixels
//! over white for JPEG.
use vstd::prelude::*;
use crate::format::{Format, format_name};
use crate::registry::{ConversionAdapter, Route};
use crate::text::with_detail;

verus! {

pub struct ImageAdapter;

/// The raster formats this adapter has codecs for.
pub open spec fn is_raster(f: Format) -> bool {
    f == Format::Png || f == Format::Jpeg || f == Format::Gif || f == Format::Bmp || f
        == Format::WebP || f == Format::Tiff
}

/// Every ordered pair of distinct raster formats.
pub open spec fn image_routes() -> Seq<Route> {
    seq![
        (Format::Png, Format::Jpeg),
        (Format::Png, Format::Gif),
        (Format::Png, Format::Bmp),
        (Format::Png, Format::WebP),
        (Format::Png, Format::Tiff),
        (Format::Jpeg, Format::Png),
        (Format::Jpeg, Format::Gif),
        (Format::Jpeg, Format::Bmp),
        (Format::Jpeg, Format::WebP),
        (Format::Jpeg, Format::Tiff),
        (Format::Gif, Format::Png),
        (Format::Gif, Format::Jpeg),
        (Format::Gif, Format::Bmp),
        (Format::Gif, Format::WebP),
        (Format::Gif, Format::Tiff),
        (Format::Bmp, Format::Png),
        (Format::Bmp, Format::Jpeg),
        (Format::Bmp, Format::Gif),
        (Format::Bmp, Format::WebP),
        (Format::Bmp, Format::Tiff),
        (Format::WebP, Format::Png),
        (Format::WebP, Format::Jpeg),
        (Format::WebP, Format::Gif),
        (Format::WebP, Format::Bmp),
        (Format::WebP, Format::Tiff),
        (Format::Tiff, Format::Png),
        (Format::Tiff, Format::Jpeg),
        (Format::Tiff, Format::Gif),
        (Format::Tiff, Format::Bmp),
        (Format::Tiff, Format::WebP)
    ]
}

/// The image routes are exactly the 30 conversions between two different
/// raster formats.
pub proof fn lemma_image_routes_are_all_permutations(from: Format, to: Format)
    ensures
        image_routes().contains((from, to)) <==> (is_raster(from) && is_raster(to) && from != to),
        image_routes().len() == 30,
{
    if is_raster(from) && is_raster(to) && from != to {
        let s = image_routes();
        let k: int = match (from, to) {
            (Format::Png, Format::Jpeg) => 0,
            (Format::Png, Format::Gif) => 1,
            (Format::Png, Format::Bmp) => 2,
            (Format::Png, Format::WebP) => 3,
            (Format::Png, Format::Tiff) => 4,
            (Format::Jpeg, Format::Png) => 5,
            (Format::Jpeg, Format::Gif) => 6,
            (Format::Jpeg, Format::Bmp) => 7,
            (Format::Jpeg, Format::WebP) => 8,
            (Format::Jpeg, Format::Tiff) => 9,
            (Format::Gif, Format::Png) => 10,
            (Format::Gif, Format::Jpeg) => 11,
            (Format::Gif, Format::Bmp) => 12,
            (Format::Gif, Format::WebP) => 13,
            (Format::Gif, Format::Tiff) => 14,
            (Format::Bmp, Format::Png) => 15,
            (Format::Bmp, Format::Jpeg) => 16,
            (Format::Bmp, Format::Gif) => 17,
            (Format::Bmp, Format::WebP) => 18,
            (Format::Bmp, Format::Tiff) => 19,
            (Format::WebP, Format::Png) => 20,
            (Format::WebP, Format::Jpeg) => 21,
            (Format::WebP, Format::Gif) => 22,
            (Format::WebP, Format::Bmp) => 23,
            (Format::WebP, Format::Tiff) => 24,
            (Format::Tiff, Format::Png) => 25,
            (Format::Tiff, Format::Jpeg) => 26,
            (Format::Tiff, Format::Gif) => 27,
            (Format::Tiff, Format::Bmp) => 28,
            (Format::Tiff, Format::WebP) => 29,
            _ => 0,
        };
        assert(s[k] == (from, to));
    }
}

impl ConversionAdapter for ImageAdapter {
    open spec fn spec_name(&self) -> Seq<char> {
        "image-rs"@
    }

    open spec fn spec_routes(&self) -> Seq<Route> {
        image_routes()
    }

    fn name(&self) -> (r: &'static str) {
        "image-rs"
    }

    fn supported_routes(&self) -> (r: Vec<Route>) {
        let r = vec![
            (Format::Png, Format::Jpeg),
            (Format::Png, Format::Gif),
            (Format::Png, Format::Bmp),
            (Format::Png, Format::WebP),
            (Format::Png, Format::Tiff),
            (Format::Jpeg, Format::Png),
            (Format::Jpeg, Format::Gif),
            (Format::Jpeg, Format::Bmp),
            (Format::Jpeg, Format::WebP),
            (Format::Jpeg, Format::Tiff),
            (Format::Gif, Format::Png),
            (Format::Gif, Format::Jpeg),
            (Format::Gif, Format::Bmp),
            (Format::Gif, Format::WebP),
            (Format::Gif, Format::Tiff),
            (Format::Bmp, Format::Png),
            (Format::Bmp, Format::Jpeg),
            (Format::Bmp, Format::Gif),
            (Format::Bmp, Format::WebP),
            (Format::Bmp, Format::Tiff),
            (Format::WebP, Format::Png),
            (Format::WebP, Format::Jpeg),
            (Format::WebP, Format::Gif),
            (Format::WebP, Format::Bmp),
            (Format::WebP, Format::Tiff),
            (Format::Tiff, Format::Png),
            (Format::Tiff, Format::Jpeg),
            (Format::Tiff, Format::Gif),
            (Format::Tiff, Format::Bmp),
            (Format::Tiff, Format::WebP)
        ];
        assert(r@ =~= image_routes());
        r
    }
}

// ---------------------------------------------------------------------
// Transcoding
// ---------------------------------------------------------------------

/// The codecs of the `image` crate this adapter drives.
#[derive(Debug, Clone, Copy, PartialEq, Eq, Structural)]
pub enum ImageCodec {
    Png,
    Jpeg,
    Gif,
    Bmp,
    WebP,
    Tiff,
}

/// The codec for a raster format.
pub open spec fn codec_of(f: Format) -> Option<ImageCodec> {
    match f {
        Format::Png => Some(ImageCodec::Png),
        Format::Jpeg => Some(ImageCodec::Jpeg),
        Format::Gif => Some(ImageCodec::Gif),
        Format::Bmp => Some(ImageCodec::Bmp),
        Format::WebP => Some(ImageCodec::WebP),
        Format::Tiff => Some(ImageCodec::Tiff),
        _ => None,
    }
}

/// The codec that reads and writes `f`, if this adapter drives one.
pub fn to_image_format(f: Format) -> (r: Option<ImageCodec>)
    ensures
        r == codec_of(f),
        r is Some <==> is_raster(f),
{
    match f {
        Format::Png => Some(ImageCodec::Png),
        Format::Jpeg => Some(ImageCodec::Jpeg),
        Format::Gif => Some(ImageCodec::Gif),
        Format::Bmp => Some(ImageCodec::Bmp),
        Format::WebP => Some(ImageCodec::WebP),
        Format::Tiff => Some(ImageCodec::Tiff),
        _ => None,
    }
}

// ---------------------------------------------------------------------
// Pixels
// ---------------------------------------------------------------------

/// Decoded pixels: `width` x `height`, row by row, each pixel as its
/// 8-bit channels in order (four, RGBA, as decoded for flattening; three,
/// RGB, once flattened).
#[derive(Debug, PartialEq, Eq)]
pub struct Raster {
    pub width: u32,
    pub height: u32,
    pub pixels: Vec<u8>,
}

/// A channel `c` with opacity `a` laid over white: `c` where opaque,
/// 255 where transparent, the weighted mean rounded to nearest between.
pub open spec fn over_white(c: u8, a: u8) -> u8 {
    ((c * a + 255 * (255 - a) + 127) / 255) as u8
}

/// RGBA pixels laid over a white background, as RGB pixels. A trailing
/// partial pixel is left out.
pub open spec fn flatten_white(px: Seq<u8>) -> Seq<u8> {
    Seq::new(
        (3 * (px.len() / 4)) as nat,
        |j: int| over_white(px[4 * (j / 3) + j % 3], px[4 * (j / 3) + 3]),
    )
}

proof fn lemma_over_white_bound(c: u8, a: u8)
    ensures
        (c * a + 255 * (255 - a) + 127) / 255 < 256,
{
    assert(c * a <= 255 * a) by (nonlinear_arith)
        requires
            c <= 255,
    ;
    assert((c * a + 255 * (255 - a) + 127) / 255 < 256) by (nonlinear_arith)
        requires
            c * a <= 255 * a,
            a <= 255,
    ;
}

fn over_white_exec(c: u8, a: u8) -> (r: u8)
    ensures
        r == over_white(c, a),
{
    proof {
        lemma_over_white_bound(c, a);
    }
    assert(c as u32 * a as u32 <= 65025) by (nonlinear_arith)
        requires
            c <= 255,
            a <= 255,
    ;
    let v: u32 = (c as u32 * a as u32 + 255 * (255 - a as u32) + 127) / 255;
    v as u8
}

/// Lay RGBA pixels over a white background (for a target without an
/// alpha channel): a transparent pixel becomes white, an opaque one keeps
/// its color.
pub fn flatten_onto_white(img: &Raster) -> (r: Raster)
    ensures
        r.width == img.width,
        r.height == img.height,
        r.pixels@ == flatten_white(img.pixels@),
{
    let px = &img.pixels;
    let n = px.len() / 4;
    let mut out: Vec<u8> = Vec::new();
    let mut i: usize = 0;
    while i < n
        invariant
            n == px@.len() / 4,
            px@.len() <= usize::MAX,
            i <= n,
            out@.len() == 3 * i,
            forall|j: int| 0 <= j < 3 * i ==> #[trigger] out@[j] == flatten_white(px@)[j],
        decreases n - i,
    {
        let a = px[4 * i + 3];
        let ghost before = out@;
        out.push(over_white_exec(px[4 * i], a));
        out.push(over_white_exec(px[4 * i + 1], a));
        out.push(over_white_exec(px[4 * i + 2], a));
        assert forall|j: int| 0 <= j < 3 * (i + 1) implies #[trigger] out@[j] == flatten_white(px@)[j] by {
            if j >= 3 * i {
                assert(j / 3 == i);
                assert(j % 3 == j - 3 * i);
            } else {
                assert(out@[j] == before[j]);
            }
        }
        i = i + 1;
    }
    assert(out@ =~= flatten_white(px@));
    Raster { width: img.width, height: img.height, pixels: out }
}

// ---------------------------------------------------------------------
// Transcoding
// ---------------------------------------------------------------------

/// Which step of a direct re-encoding failed, with the codec's message.
#[derive(Debug, PartialEq, Eq)]
pub enum ImageFailure {
    Decode(String),
    Encode(String),
}

/// The message for a format this adapter has no codec for.
pub open spec fn not_a_codec(f: Format) -> Seq<char> {
    "format '"@ + format_name(f) + "' is not a codec this adapter drives"@
}

fn not_a_codec_message(f: Format) -> (r: String)
    ensures
        r@ == not_a_codec(f),
{
    let mut m = String::from_str("format '");
    m.append(f.as_str());
    m.append("' is not a codec this adapter drives");
    m
}

/// What a conversion into JPEG gives, for the answers of the codecs: the
/// decoded RGBA pixels are laid over white and the RGB result encoded as
/// JPEG; a codec's failure message is passed on after `decode failed: `
/// or `encode failed: `.
pub open spec fn jpeg_outcome<
    D: Fn(&[u8], ImageCodec) -> Result<Raster, String>,
    E: Fn(&Raster, ImageCodec) -> Result<Vec<u8>, String>,
>(decode: &D, encode: &E, bytes: &[u8], src: ImageCodec, r: Result<Vec<u8>, String>) -> bool {
    exists|d: Result<Raster, String>|
        #![trigger decode.ensures((bytes, src), d)]
        decode.ensures((bytes, src), d) && match d {
            Err(m) => r matches Err(x) && x@ == "decode failed: "@ + m@,
            Ok(img) => exists|flat: Raster, e: Result<Vec<u8>, String>|
                #![trigger encode.ensures((&flat, ImageCodec::Jpeg), e)]
                flat.width == img.width && flat.height == img.height && flat.pixels@
                    == flatten_white(img.pixels@) && encode.ensures((&flat, ImageCodec::Jpeg), e)
                    && match e {
                    Err(m) => r matches Err(x) && x@ == "encode failed: "@ + m@,
                    Ok(b) => r matches Ok(x) && x@ == b@,
                },
        }
}

/// What a conversion into a codec with an alpha channel gives, for the
/// answer of the codecs: the decoded image re-encoded as it is.
pub open spec fn direct_outcome<
    R: Fn(&[u8], ImageCodec, ImageCodec) -> Result<Vec<u8>, ImageFailure>,
>(reencode: &R, bytes: &[u8], src: ImageCodec, dst: ImageCodec, r: Result<Vec<u8>, String>) -> bool {
    exists|e: Result<Vec<u8>, ImageFailure>|
        #![trigger reencode.ensures((bytes, src, dst), e)]
        reencode.ensures((bytes, src, dst), e) && match e {
            Err(ImageFailure::Decode(m)) => r matches Err(x) && x@ == "decode failed: "@ + m@,
            Err(ImageFailure::Encode(m)) => r matches Err(x) && x@ == "encode failed: "@ + m@,
            Ok(b) => r matches Ok(x) && x@ == b@,
        }
}

/// Decode `bytes` as `from` and re-encode the pixels as `to`, never a
/// rename. JPEG has no alpha channel, so an image bound for JPEG is
/// decoded to RGBA, laid over white and encoded from RGB; any other
/// target gets the decoded image as it is. A format without a codec is
/// refused before any decoding. The codecs are the caller's:
/// `decode_rgba` and `encode_rgb` for the JPEG path, `reencode` (decode,
/// then encode) for the others; each answers with its failure message.
pub fn transcode_image<
    D: Fn(&[u8], ImageCodec) -> Result<Raster, String>,
    E: Fn(&Raster, ImageCodec) -> Result<Vec<u8>, String>,
    R: Fn(&[u8], ImageCodec, ImageCodec) -> Result<Vec<u8>, ImageFailure>,
>(bytes: &[u8], from: Format, to: Format, decode_rgba: &D, encode_rgb: &E, reencode: &R) -> (r:
    Result<Vec<u8>, String>)
    requires
        forall|b: &[u8], c: ImageCodec| decode_rgba.requires((b, c)),
        forall|p: &Raster, c: ImageCodec| encode_rgb.requires((p, c)),
        forall|b: &[u8], c: ImageCodec, d: ImageCodec| reencode.requires((b, c, d)),
    ensures
        !is_raster(from) ==> (r matches Err(m) && m@ == not_a_codec(from)),
        is_raster(from) && !is_raster(to) ==> (r matches Err(m) && m@ == not_a_codec(to)),
        is_raster(from) && to == Format::Jpeg ==> jpeg_outcome(
            decode_rgba,
            encode_rgb,
            bytes,
            codec_of(from)->0,
            r,
        ),
        is_raster(from) && is_raster(to) && to != Format::Jpeg ==> direct_outcome(
            reencode,
            bytes,
            codec_of(from)->0,
            codec_of(to)->0,
            r,
        ),
{
    let src = match to_image_format(from) {
        Some(c) => c,
        None => return Err(not_a_codec_message(from)),
    };
    let dst = match to_image_format(to) {
        Some(c) => c,
        None => return Err(not_a_codec_message(to)),
    };
    if dst == ImageCodec::Jpeg {
        let d = decode_rgba(bytes, src);
        let ghost dg = d;
        match d {
            Err(m) => {
                let r = with_detail("decode failed: ", m);
                assert(jpeg_outcome(decode_rgba, encode_rgb, bytes, src, Err(r)));
                Err(r)
            },
            Ok(img) => {
                let flat = flatten_onto_white(&img);
                let e = encode_rgb(&flat, ImageCodec::Jpeg);
                let ghost eg = e;
                let r = match e {
                    Err(m) => Err(with_detail("encode failed: ", m)),
                    Ok(b) => Ok(b),
                };
                assert(jpeg_outcome(decode_rgba, encode_rgb, bytes, src, r));
                r
            },
        }
    } else {
        let e = reencode(bytes, src, dst);
        let ghost eg = e;
        let r = match e {
            Err(ImageFailure::Decode(m)) => Err(with_detail("decode failed: ", m)),
            Err(ImageFailure::Encode(m)) => Err(with_detail("encode failed: ", m)),
            Ok(b) => Ok(b),
        };
        assert(direct_outcome(reencode, bytes, src, dst, r));
        r
    }
}

} // verus!
