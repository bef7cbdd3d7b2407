use ufc::{sniff_bytes, Format};

#[test]
fn detects_png() {
    let sig = [0x89, 0x50, 0x4E, 0x47, 0x0D, 0x0A, 0x1A, 0x0A, 0, 0, 0, 0];
    assert_eq!(sniff_bytes(&sig), Some(Format::Png));
}

#[test]
fn detects_jpeg() {
    let sig = [0xFF, 0xD8, 0xFF, 0xE0];
    assert_eq!(sniff_bytes(&sig), Some(Format::Jpeg));
}

#[test]
fn rejects_extension_spoofed_content() {
    // A file with .png extension but JPEG bytes must sniff as Jpeg,
    // not Png — the whole point of magic-byte detection.
    let sig = [0xFF, 0xD8, 0xFF, 0xE1];
    assert_eq!(sniff_bytes(&sig), Some(Format::Jpeg));
    assert_ne!(sniff_bytes(&sig), Some(Format::Png));
}

#[test]
fn detects_json() {
    let json = b"{\n  \"name\": \"ufc\",\n  \"version\": 1\n}";
    assert_eq!(sniff_bytes(json), Some(Format::Json));
}

#[test]
fn detects_yaml() {
    let yaml = b"---\nname: ufc\nversion: 1\n";
    assert_eq!(sniff_bytes(yaml), Some(Format::Yaml));
}

#[test]
fn detects_toml() {
    let toml = b"[package]\nname = \"ufc\"\nversion = \"0.1.0\"\n";
    assert_eq!(sniff_bytes(toml), Some(Format::Toml));
}

#[test]
fn detects_csv() {
    let csv = b"name,age,city\nAlice,30,Seattle\nBob,25,Austin\n";
    assert_eq!(sniff_bytes(csv), Some(Format::Csv));
}

#[test]
fn detects_html() {
    let html = b"<!DOCTYPE html>\n<html><head><title>Test</title></head><body><h1>Hello</h1></body></html>";
    assert_eq!(sniff_bytes(html), Some(Format::Html));
}

#[test]
fn detects_markdown() {
    let md = b"# Universal File Converter\n\nThis is a documentation file.\n";
    assert_eq!(sniff_bytes(md), Some(Format::Markdown));
}

#[test]
fn unknown_signature_returns_none() {
    let garbage = [0x00, 0x01, 0x02, 0x03, 0x04];
    assert_eq!(sniff_bytes(&garbage), None);
}

#[test]
fn text_that_is_not_utf8_is_read_lossily() {
    // Invalid UTF-8 that still looks like text is decoded with
    // replacement characters and classified by its content.
    let bytes = b"name,age\n\xff\xfe,1\n";
    assert_eq!(sniff_bytes(bytes), Some(Format::Csv));
    let bytes = b"\xff# not a heading\n";
    assert_eq!(sniff_bytes(bytes), Some(Format::PlainText));
}

#[test]
fn zip_containers_are_told_apart() {
    let mut docx = vec![0x50, 0x4B, 0x03, 0x04];
    docx.extend_from_slice(b"....[Content_Types].xml....");
    assert_eq!(sniff_bytes(&docx), Some(Format::Docx));
    let mut odt = vec![0x50, 0x4B, 0x03, 0x04];
    odt.extend_from_slice(b"..mimetypeapplication/vnd.oasis.opendocument.text");
    assert_eq!(sniff_bytes(&odt), Some(Format::Odt));
    let zip = [0x50, 0x4B, 0x05, 0x06, 0, 0];
    assert_eq!(sniff_bytes(&zip), Some(Format::Zip));
}

#[test]
fn binary_noise_is_unknown() {
    assert_eq!(sniff_bytes(&[0x00, 0x01, 0x02, 0x03, 0x04]), None);
    assert_eq!(sniff_bytes(&[]), None);
}
