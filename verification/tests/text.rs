use ufc::markup_adapter::{decode_html_entities, html_to_markdown, html_to_plain_text, markdown_to_plain_text};
use ufc::pdf_adapter::{check_written_pdf, extract_pdf_text, pdf_direction, pdf_pages, wrap_text, PdfDirection};
use ufc::Format;

fn pdf_page_count(bytes: &[u8]) -> Result<usize, String> {
    lopdf::Document::load_mem(bytes).map(|d| d.get_pages().len()).map_err(|e| e.to_string())
}

fn pdf_text(bytes: &[u8]) -> Result<String, String> {
    pdf_extract::extract_text_from_mem(bytes).map_err(|e| e.to_string())
}

fn chars(s: &str) -> Vec<char> {
    s.chars().collect()
}

fn text(v: Vec<char>) -> String {
    v.into_iter().collect()
}

fn pdf_with_text(line: &str) -> Vec<u8> {
    let (doc, page, layer) =
        printpdf::PdfDocument::new("Converted Document", printpdf::Mm(210.0), printpdf::Mm(297.0), "Layer 1");
    let font = doc.add_builtin_font(printpdf::BuiltinFont::Helvetica).unwrap();
    if !line.is_empty() {
        doc.get_page(page).get_layer(layer).use_text(line, 11.0, printpdf::Mm(20.0), printpdf::Mm(277.0), &font);
    }
    doc.save_to_bytes().unwrap()
}

#[test]
fn html_to_markdown_example() {
    let md = text(html_to_markdown(&chars("<h1>Hi</h1><p>A &amp; <b>B</b></p>")));
    assert_eq!(md, "# Hi\n\nA & **B**\n");
}

#[test]
fn html_to_markdown_lists_code_and_rules() {
    let md = text(html_to_markdown(&chars(
        "<head><title>T</title></head><ul><li>one</li><li>two</li></ul><hr><pre>x</pre><i>it</i> <code>c</code>",
    )));
    assert_eq!(md, "- one\n- two\n\n---\n\n```\nx\n```\n*it* `c`\n");
}

#[test]
fn html_to_plain_text_example() {
    let t = text(html_to_plain_text(&chars("<p>One</p><p>Two &lt;3</p><script>x</script>")));
    assert_eq!(t, "\nOne\nTwo <3\n");
}

#[test]
fn html_entities_are_decoded_in_order() {
    let t = text(decode_html_entities(&chars("&amp;lt; &quot;q&quot; &#39;&apos;&nbsp;")));
    assert_eq!(t, "< \"q\" '' ");
}

#[test]
fn markdown_to_plain_text_example() {
    let t = text(markdown_to_plain_text("# Title\n\nSome *em* and `code`.\n\n- a\n- b\n"));
    assert_eq!(t, "Title\nSome em and code.\na\nb\n");
}

#[test]
fn wrap_text_examples() {
    assert_eq!(wrap_text("aaa bbb ccc", 7), vec!["aaa bbb", "ccc"]);
    assert_eq!(wrap_text("a\n\nb", 10), vec!["a", "", "b"]);
    assert_eq!(wrap_text("abcdefghijkl", 5), vec!["", "abcdefghijkl"]);
    assert_eq!(wrap_text("  ", 5), Vec::<String>::new());
    // Widths count bytes: "é" is two.
    assert_eq!(wrap_text("éé é", 5), vec!["éé", "é"]);
}

#[test]
fn pdf_pages_hold_42_lines() {
    let content: Vec<String> = (0..43).map(|i| format!("line{i}")).collect();
    let pages = pdf_pages(&content.join("\n"));
    assert_eq!(pages.len(), 2);
    assert_eq!(pages[0].len(), 42);
    assert_eq!(pages[1], vec!["line42".to_string()]);
    let empty = pdf_pages("");
    assert_eq!(empty, vec![vec![String::new()]]);
}

#[test]
fn pdf_routes() {
    assert_eq!(pdf_direction(Format::Pdf, Format::PlainText), Ok(PdfDirection::ToText));
    assert_eq!(pdf_direction(Format::PlainText, Format::Pdf), Ok(PdfDirection::ToPdf));
    assert_eq!(pdf_direction(Format::Pdf, Format::Html), Err("unsupported route pdf -> html".to_string()));
}

#[test]
fn pdf_text_is_extracted() {
    let bytes = pdf_with_text("Hello PDF");
    assert!(check_written_pdf(&bytes, &pdf_page_count).is_ok());
    let t = extract_pdf_text(&bytes, &pdf_page_count, &pdf_text).unwrap();
    assert!(t.contains("Hello PDF"), "{t:?}");
}

#[test]
fn pdf_without_text_is_refused() {
    let bytes = pdf_with_text("");
    let e = extract_pdf_text(&bytes, &pdf_page_count, &pdf_text).unwrap_err();
    assert!(e.starts_with("extraction produced no text") || e.starts_with("text extraction failed: "), "{e}");
}

#[test]
fn garbage_is_not_a_pdf() {
    let e = extract_pdf_text(b"definitely not a pdf", &pdf_page_count, &pdf_text).unwrap_err();
    assert!(e.starts_with("input failed PDF structural parse: "), "{e}");
    let e = check_written_pdf(b"%PDF-1.4 broken", &pdf_page_count).unwrap_err();
    assert!(e.starts_with("wrote a PDF that failed to re-parse: "), "{e}");
}

#[test]
fn blank_line_runs_are_collapsed() {
    let md = text(html_to_markdown(&chars("<p>a</p><br><br><br><br><p>b</p>\n\n\n")));
    assert_eq!(md, "a\n\nb\n");
    assert!(!md.contains("\n\n\n"));
}

#[test]
fn pdf_answers_decide_the_outcome() {
    let none = |_: &[u8]| -> Result<usize, String> { Ok(0) };
    let text = |_: &[u8]| -> Result<String, String> { Ok("  \n ".to_string()) };
    let some = |_: &[u8]| -> Result<usize, String> { Ok(3) };
    let broken = |_: &[u8]| -> Result<String, String> { Err("boom".to_string()) };
    assert_eq!(extract_pdf_text(b"x", &none, &text), Err("PDF parsed but contains zero pages".to_string()));
    assert!(extract_pdf_text(b"x", &some, &text).unwrap_err().starts_with("extraction produced no text"));
    assert_eq!(extract_pdf_text(b"x", &some, &broken), Err("text extraction failed: boom".to_string()));
}
