use ufc::data_adapter::convert_data;
use ufc::image_adapter::{flatten_onto_white, transcode_image, ImageCodec, ImageFailure, Raster};
use ufc::markup_adapter::convert_markup;
use ufc::{sniff_bytes, Format};


fn image_format(c: ImageCodec) -> image::ImageFormat {
    match c {
        ImageCodec::Png => image::ImageFormat::Png,
        ImageCodec::Jpeg => image::ImageFormat::Jpeg,
        ImageCodec::Gif => image::ImageFormat::Gif,
        ImageCodec::Bmp => image::ImageFormat::Bmp,
        ImageCodec::WebP => image::ImageFormat::WebP,
        ImageCodec::Tiff => image::ImageFormat::Tiff,
    }
}

fn save(img: &image::DynamicImage, c: ImageCodec) -> Result<Vec<u8>, String> {
    let mut out = std::io::Cursor::new(Vec::new());
    img.write_to(&mut out, image_format(c)).map_err(|e| e.to_string())?;
    Ok(out.into_inner())
}

fn decode_rgba(bytes: &[u8], c: ImageCodec) -> Result<Raster, String> {
    let img = image::load_from_memory_with_format(bytes, image_format(c)).map_err(|e| e.to_string())?.to_rgba8();
    Ok(Raster { width: img.width(), height: img.height(), pixels: img.into_raw() })
}

fn encode_rgb(r: &Raster, c: ImageCodec) -> Result<Vec<u8>, String> {
    let img = image::RgbImage::from_raw(r.width, r.height, r.pixels.clone()).ok_or("size mismatch".to_string())?;
    save(&image::DynamicImage::ImageRgb8(img), c)
}

fn reencode(bytes: &[u8], src: ImageCodec, dst: ImageCodec) -> Result<Vec<u8>, ImageFailure> {
    let img = image::load_from_memory_with_format(bytes, image_format(src))
        .map_err(|e| ImageFailure::Decode(e.to_string()))?;
    save(&img, dst).map_err(ImageFailure::Encode)
}

fn transcode(bytes: &[u8], from: Format, to: Format) -> Result<Vec<u8>, String> {
    transcode_image(bytes, from, to, &decode_rgba, &encode_rgb, &reencode)
}

fn float_text(field: &str) -> Option<String> {
    field.parse::<f64>().ok().and_then(serde_json::Number::from_f64).map(|n| n.to_string())
}

fn png_bytes(w: u32, h: u32) -> Vec<u8> {
    let mut img = image::RgbImage::new(w, h);
    img.put_pixel(0, 0, image::Rgb([255, 0, 0]));
    let mut out = std::io::Cursor::new(Vec::new());
    img.write_to(&mut out, image::ImageFormat::Png).unwrap();
    out.into_inner()
}

#[test]
fn test_data_adapter_conversions() {
    // JSON -> YAML
    let yaml_content =
        convert_data(r#"{"name": "ufc", "stars": 100}"#, Format::Json, Format::Yaml, &float_text).unwrap();
    assert!(yaml_content.contains("name: ufc"));

    // YAML -> TOML
    let toml_content = convert_data(&yaml_content, Format::Yaml, Format::Toml, &float_text).unwrap();
    assert!(toml_content.contains("name = \"ufc\""));

    // CSV -> JSON
    let json_content =
        convert_data("city,country\nTokyo,Japan\nParis,France\n", Format::Csv, Format::Json, &float_text)
            .unwrap();
    assert!(json_content.contains("Tokyo"));
}

#[test]
fn test_markup_adapter_conversions() {
    let md = "# Header\n\nThis is **bold** text.";

    // Markdown -> HTML
    let html_content = convert_markup(md, Format::Markdown, Format::Html).unwrap();
    assert!(html_content.contains("<h1>Header</h1>"));
    assert!(html_content.contains("<strong>bold</strong>"));

    // HTML -> Markdown
    let md_content = convert_markup(&html_content, Format::Html, Format::Markdown).unwrap();
    assert!(md_content.contains("# Header"));
    assert!(md_content.contains("**bold**"));

    // Markdown -> PlainText
    let txt_content = convert_markup(md, Format::Markdown, Format::PlainText).unwrap();
    assert!(txt_content.contains("Header"));
    assert!(txt_content.contains("This is bold text."));
}

#[test]
fn test_image_adapter_conversions() {
    let png = png_bytes(2, 2);

    // PNG -> WebP
    let webp = transcode(&png, Format::Png, Format::WebP).unwrap();
    assert_eq!(sniff_bytes(&webp), Some(Format::WebP));

    // WebP -> BMP
    let bmp = transcode(&webp, Format::WebP, Format::Bmp).unwrap();
    assert_eq!(sniff_bytes(&bmp), Some(Format::Bmp));
}

#[test]
fn image_to_jpeg_is_flattened_and_encoded() {
    let png = png_bytes(3, 3);
    let jpeg = transcode(&png, Format::Png, Format::Jpeg).unwrap();
    assert_eq!(sniff_bytes(&jpeg), Some(Format::Jpeg));
    let tiff = transcode(&jpeg, Format::Jpeg, Format::Tiff).unwrap();
    assert_eq!(sniff_bytes(&tiff), Some(Format::Tiff));
    let gif = transcode(&tiff, Format::Tiff, Format::Gif).unwrap();
    assert_eq!(sniff_bytes(&gif), Some(Format::Gif));
}

#[test]
fn image_refuses_formats_without_codec() {
    let png = png_bytes(1, 1);
    assert_eq!(
        transcode(&png, Format::Pdf, Format::Png),
        Err("format 'pdf' is not a codec this adapter drives".to_string())
    );
    assert_eq!(
        transcode(&png, Format::Png, Format::Json),
        Err("format 'json' is not a codec this adapter drives".to_string())
    );
}

#[test]
fn image_reports_decode_failure() {
    let r = transcode(b"not an image at all", Format::Png, Format::Bmp);
    assert!(r.unwrap_err().starts_with("decode failed: "));
}

#[test]
fn markup_unsupported_route_is_refused() {
    assert_eq!(
        convert_markup("x", Format::Html, Format::Html),
        Err("unsupported markup route html -> html".to_string())
    );
}

#[test]
fn plain_text_to_markdown_is_unchanged() {
    let t = "just *some* text\n";
    assert_eq!(convert_markup(t, Format::PlainText, Format::Markdown).unwrap(), t);
}

#[test]
fn plain_text_to_html_wraps_rendered_markdown() {
    let html = convert_markup("Hello *world*", Format::PlainText, Format::Html).unwrap();
    assert!(html.starts_with("<!DOCTYPE html>") || html.contains("<html"));
    assert!(html.contains("<em>world</em>"));
}

#[test]
fn transparent_pixels_become_white_in_jpeg() {
    let img = image::RgbaImage::new(2, 2);
    let mut out = std::io::Cursor::new(Vec::new());
    img.write_to(&mut out, image::ImageFormat::Png).unwrap();
    let jpeg = transcode(&out.into_inner(), Format::Png, Format::Jpeg).unwrap();
    let back = image::load_from_memory_with_format(&jpeg, image::ImageFormat::Jpeg).unwrap().to_rgb8();
    assert_eq!((back.width(), back.height()), (2, 2));
    for p in back.pixels() {
        assert!(p.0.iter().all(|&c| c >= 250), "{:?}", p);
    }
}

#[test]
fn flattening_blends_over_white() {
    let img = Raster { width: 2, height: 2, pixels: vec![100, 50, 0, 128, 0, 0, 0, 0, 9, 200, 255, 255, 1, 2, 3, 4, 7] };
    let flat = flatten_onto_white(&img);
    assert_eq!(flat.width, 2);
    assert_eq!(flat.height, 2);
    assert_eq!(flat.pixels[..9], [177, 152, 127, 255, 255, 255, 9, 200, 255]);
    assert_eq!(flat.pixels.len(), 12);
}

#[test]
fn other_targets_get_the_image_as_decoded() {
    // A PNG bound for PNG through the direct path decodes to the same pixels.
    let png = png_bytes(3, 2);
    let again = transcode(&png, Format::Png, Format::Bmp).unwrap();
    let a = image::load_from_memory(&png).unwrap().to_rgba8();
    let b = image::load_from_memory(&again).unwrap().to_rgba8();
    assert_eq!(a.into_raw(), b.into_raw());
}

#[test]
fn codec_failures_are_reported_by_step() {
    let fail_encode = |_: &Raster, _: ImageCodec| -> Result<Vec<u8>, String> { Err("disk full".to_string()) };
    let png = png_bytes(1, 1);
    assert_eq!(
        transcode_image(&png, Format::Png, Format::Jpeg, &decode_rgba, &fail_encode, &reencode),
        Err("encode failed: disk full".to_string())
    );
    let fail = |_: &[u8], _: ImageCodec, _: ImageCodec| -> Result<Vec<u8>, ImageFailure> {
        Err(ImageFailure::Decode("bad".to_string()))
    };
    assert_eq!(
        transcode_image(&png, Format::Png, Format::Gif, &decode_rgba, &encode_rgb, &fail),
        Err("decode failed: bad".to_string())
    );
}
