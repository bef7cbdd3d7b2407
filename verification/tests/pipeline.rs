use std::path::PathBuf;
use ufc::adapters::build_default_registry;
use ufc::data_adapter::convert_data;
use ufc::detection::{detect_from_prefix, SNIFF_WINDOW};
use ufc::image_adapter::{transcode_image, ImageCodec, ImageFailure, Raster};
use ufc::markup_adapter::convert_markup;
use ufc::router::resolve_route;
use ufc::validation::validate_output_bytes;
use ufc::{Format, Registry};


fn image_format(c: ImageCodec) -> image::ImageFormat {
    match c {
        ImageCodec::Png => image::ImageFormat::Png,
        ImageCodec::Jpeg => image::ImageFormat::Jpeg,
        ImageCodec::Gif => image::ImageFormat::Gif,
        ImageCodec::Bmp => image::ImageFormat::Bmp,
        ImageCodec::WebP => image::ImageFormat::WebP,
        ImageCodec::Tiff => image::ImageFormat::Tiff,
    }
}

fn save(img: &image::DynamicImage, c: ImageCodec) -> Result<Vec<u8>, String> {
    let mut out = std::io::Cursor::new(Vec::new());
    img.write_to(&mut out, image_format(c)).map_err(|e| e.to_string())?;
    Ok(out.into_inner())
}

fn decode_rgba(bytes: &[u8], c: ImageCodec) -> Result<Raster, String> {
    let img = image::load_from_memory_with_format(bytes, image_format(c)).map_err(|e| e.to_string())?.to_rgba8();
    Ok(Raster { width: img.width(), height: img.height(), pixels: img.into_raw() })
}

fn encode_rgb(r: &Raster, c: ImageCodec) -> Result<Vec<u8>, String> {
    let img = image::RgbImage::from_raw(r.width, r.height, r.pixels.clone()).ok_or("size mismatch".to_string())?;
    save(&image::DynamicImage::ImageRgb8(img), c)
}

fn reencode(bytes: &[u8], src: ImageCodec, dst: ImageCodec) -> Result<Vec<u8>, ImageFailure> {
    let img = image::load_from_memory_with_format(bytes, image_format(src))
        .map_err(|e| ImageFailure::Decode(e.to_string()))?;
    save(&img, dst).map_err(ImageFailure::Encode)
}

fn transcode(bytes: &[u8], from: Format, to: Format) -> Result<Vec<u8>, String> {
    transcode_image(bytes, from, to, &decode_rgba, &encode_rgb, &reencode)
}

fn float_text(field: &str) -> Option<String> {
    field.parse::<f64>().ok().and_then(serde_json::Number::from_f64).map(|n| n.to_string())
}

/// One job on bytes held in memory: sniff, route, convert, re-validate.
fn run(registry: &Registry, input: &[u8], to: Format) -> (Format, Format, Vec<u8>) {
    let window = &input[..input.len().min(SNIFF_WINDOW)];
    let from = detect_from_prefix(PathBuf::from("input"), window).unwrap();
    let i = resolve_route(registry, from, to).unwrap();
    let out = match registry.adapter_name(i) {
        "data-adapter" => {
            convert_data(std::str::from_utf8(input).unwrap(), from, to, &float_text).unwrap().into_bytes()
        }
        "markup-adapter" => convert_markup(std::str::from_utf8(input).unwrap(), from, to).unwrap().into_bytes(),
        "image-rs" => transcode(input, from, to).unwrap(),
        other => panic!("unexpected adapter {other}"),
    };
    validate_output_bytes(PathBuf::from("output"), &out, to).unwrap();
    (from, to, out)
}

#[test]
fn test_end_to_end_data_pipeline() {
    let registry = build_default_registry();
    let json = br#"[{"id": 1, "name": "Alice"}, {"id": 2, "name": "Bob"}]"#;

    // JSON -> YAML
    let (from, to, yaml) = run(&registry, json, Format::Yaml);
    assert_eq!(from, Format::Json);
    assert_eq!(to, Format::Yaml);
    assert!(!yaml.is_empty());

    // YAML -> CSV
    let (from, to, csv) = run(&registry, &yaml, Format::Csv);
    assert_eq!(from, Format::Yaml);
    assert_eq!(to, Format::Csv);
    assert!(!csv.is_empty());

    // CSV -> TOML
    let (from, to, toml) = run(&registry, &csv, Format::Toml);
    assert_eq!(from, Format::Csv);
    assert_eq!(to, Format::Toml);
    assert!(!toml.is_empty());
}

#[test]
fn test_end_to_end_markup_pipeline() {
    let registry = build_default_registry();
    let md = b"# Main Title\n\n- Point 1\n- Point 2\n\n```rust\nlet x = 42;\n```\n";

    // MD -> HTML
    let (from, to, html) = run(&registry, md, Format::Html);
    assert_eq!(from, Format::Markdown);
    assert_eq!(to, Format::Html);
    let html_str = String::from_utf8(html.clone()).unwrap();
    assert!(html_str.contains("<h1>Main Title</h1>"));

    // HTML -> PlainText
    let (from, to, txt) = run(&registry, &html, Format::PlainText);
    assert_eq!(from, Format::Html);
    assert_eq!(to, Format::PlainText);
    let txt_str = String::from_utf8(txt).unwrap();
    assert!(txt_str.contains("Main Title"));
}

#[test]
fn test_end_to_end_image_pipeline() {
    let registry = build_default_registry();
    let mut img = image::RgbImage::new(10, 10);
    img.put_pixel(0, 0, image::Rgb([255, 0, 0]));
    let mut png = std::io::Cursor::new(Vec::new());
    img.write_to(&mut png, image::ImageFormat::Png).unwrap();
    let png = png.into_inner();

    // PNG -> WebP
    let (from, to, webp) = run(&registry, &png, Format::WebP);
    assert_eq!(from, Format::Png);
    assert_eq!(to, Format::WebP);

    // WebP -> BMP
    let (from, to, bmp) = run(&registry, &webp, Format::Bmp);
    assert_eq!(from, Format::WebP);
    assert_eq!(to, Format::Bmp);

    // BMP -> TIFF
    let (from, to, tiff) = run(&registry, &bmp, Format::Tiff);
    assert_eq!(from, Format::Bmp);
    assert_eq!(to, Format::Tiff);
    assert!(!tiff.is_empty());
}
