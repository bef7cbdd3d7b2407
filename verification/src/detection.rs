//! Magic-byte and structural format sniffing.
//!
//! Formats are identified from their byte signature only, never from a
//! file extension; where signatures are insufficient (text formats, ZIP
//! containers) a lightweight structural probe decides.
use vstd::prelude::*;
use vstd::utf8::{decode_utf8, valid_utf8};
use crate::format::Format;
use crate::errors::DetectError;
use std::path::PathBuf;
use crate::text::{
    char_views, chars_have, chars_of, contains, contains_str, count_char, count_chars, control,
    ends_with, ends_with_str, has_char, is_control, lines, split_lines, starts_with,
    starts_with_str, to_lowercase, trim, trim_chars, unicode_lowercase,
};

verus! {

// ---------------------------------------------------------------------
// Byte signatures
// ---------------------------------------------------------------------

pub open spec fn png_signature() -> Seq<u8> {
    seq![0x89u8, 0x50u8, 0x4Eu8, 0x47u8, 0x0Du8, 0x0Au8, 0x1Au8, 0x0Au8]
}

pub open spec fn jpeg_signature() -> Seq<u8> {
    seq![0xFFu8, 0xD8u8, 0xFFu8]
}

/// `GIF87a`
pub open spec fn gif87_signature() -> Seq<u8> {
    seq![0x47u8, 0x49u8, 0x46u8, 0x38u8, 0x37u8, 0x61u8]
}

/// `GIF89a`
pub open spec fn gif89_signature() -> Seq<u8> {
    seq![0x47u8, 0x49u8, 0x46u8, 0x38u8, 0x39u8, 0x61u8]
}

/// `BM`
pub open spec fn bmp_signature() -> Seq<u8> {
    seq![0x42u8, 0x4Du8]
}

/// `RIFF`
pub open spec fn riff_tag() -> Seq<u8> {
    seq![0x52u8, 0x49u8, 0x46u8, 0x46u8]
}

/// `WEBP`
pub open spec fn webp_tag() -> Seq<u8> {
    seq![0x57u8, 0x45u8, 0x42u8, 0x50u8]
}

/// Little-endian TIFF (`II*\0`).
pub open spec fn tiff_le_signature() -> Seq<u8> {
    seq![0x49u8, 0x49u8, 0x2Au8, 0x00u8]
}

/// Big-endian TIFF (`MM\0*`).
pub open spec fn tiff_be_signature() -> Seq<u8> {
    seq![0x4Du8, 0x4Du8, 0x00u8, 0x2Au8]
}

/// `%PDF-`
pub open spec fn pdf_signature() -> Seq<u8> {
    seq![0x25u8, 0x50u8, 0x44u8, 0x46u8, 0x2Du8]
}

/// Local file header of a ZIP archive (`PK\x03\x04`).
pub open spec fn zip_local_signature() -> Seq<u8> {
    seq![0x50u8, 0x4Bu8, 0x03u8, 0x04u8]
}

/// End of central directory of an empty ZIP archive (`PK\x05\x06`).
pub open spec fn zip_empty_signature() -> Seq<u8> {
    seq![0x50u8, 0x4Bu8, 0x05u8, 0x06u8]
}

pub open spec fn is_webp(buf: Seq<u8>) -> bool {
    buf.len() >= 12 && buf.subrange(0, 4) == riff_tag() && buf.subrange(8, 12) == webp_tag()
}

// ---------------------------------------------------------------------
// Text probes
// ---------------------------------------------------------------------

pub open spec fn is_printable_char(c: char) -> bool {
    !is_control(c) || c == '\n' || c == '\r' || c == '\t'
}

pub open spec fn count_printable(s: Seq<char>) -> nat
    decreases s.len(),
{
    if s.len() == 0 {
        0
    } else {
        count_printable(s.drop_last()) + if is_printable_char(s.last()) {
            1nat
        } else {
            0nat
        }
    }
}

/// Text is "printable" when it is non-empty and strictly more than 95% of
/// its characters are not control characters (newline, carriage return
/// and tab count as printable).
pub open spec fn printable_text(s: Seq<char>) -> bool {
    s.len() > 0 && 20 * count_printable(s) > 19 * s.len()
}

/// A byte that may occur in text that is not valid UTF-8: tab, newline,
/// carriage return, printable ASCII, or any byte with the high bit set.
pub open spec fn is_texty_byte(b: u8) -> bool {
    b == 0x09 || b == 0x0A || b == 0x0D || (0x20 <= b && b <= 0x7E) || b >= 0x80
}

/// The first 256 bytes (or all, if fewer) are all text-like.
pub open spec fn texty_prefix(buf: Seq<u8>) -> bool {
    forall|i: int| 0 <= i < buf.len() && i < 256 ==> is_texty_byte(#[trigger] buf[i])
}

pub open spec fn looks_like_html(lower: Seq<char>) -> bool {
    ||| starts_with(lower, "<!doctype html"@)
    ||| starts_with(lower, "<html"@)
    ||| starts_with(lower, "<head"@)
    ||| starts_with(lower, "<body"@)
    ||| starts_with(lower, "<?xml"@)
    ||| contains(lower, "<html"@) && contains(lower, "</html>"@)
    ||| contains(lower, "<div"@) && contains(lower, "</div>"@)
    ||| contains(lower, "<p>"@) && contains(lower, "</p>"@)
}

pub open spec fn looks_like_json(t: Seq<char>) -> bool {
    ||| starts_with(t, "{"@) && ends_with(t, "}"@)
    ||| starts_with(t, "["@) && ends_with(t, "]"@)
    ||| starts_with(t, "{"@) && has_char(t, ':')
    ||| starts_with(t, "["@) && has_char(t, ',')
}

pub open spec fn looks_like_markdown_block(t: Seq<char>) -> bool {
    ||| starts_with(t, "# "@)
    ||| starts_with(t, "## "@)
    ||| starts_with(t, "### "@)
    ||| starts_with(t, "#### "@)
    ||| starts_with(t, "```"@)
    ||| starts_with(t, "> "@)
}

/// The first line is a TOML table header such as `[package]`.
pub open spec fn toml_table_header(t: Seq<char>) -> bool {
    lines(t).len() > 0 && {
        let l = lines(t)[0];
        &&& ends_with(trim(l), "]"@)
        &&& !has_char(l, ':')
        &&& !has_char(l, ',')
    }
}

pub open spec fn is_toml_assignment(l: Seq<char>) -> bool {
    contains(l, " = "@) || (has_char(l, '=') && !has_char(l, ';'))
}

pub open spec fn any_toml_assignment(ls: Seq<Seq<char>>) -> bool {
    exists|i: int| 0 <= i < ls.len() && is_toml_assignment(#[trigger] ls[i])
}

pub open spec fn looks_like_toml(t: Seq<char>, lower: Seq<char>) -> bool {
    ||| starts_with(t, "["@) && toml_table_header(t)
    ||| any_toml_assignment(lines(t)) && !starts_with(lower, "<"@)
}

pub open spec fn is_yaml_mapping_line(l: Seq<char>) -> bool {
    let lt = trim(l);
    &&& !starts_with(lt, "#"@)
    &&& (contains(lt, ": "@) || (ends_with(lt, ":"@) && !starts_with(lt, "http"@)))
}

pub open spec fn any_yaml_mapping(ls: Seq<Seq<char>>) -> bool {
    exists|i: int| 0 <= i < ls.len() && is_yaml_mapping_line(#[trigger] ls[i])
}

pub open spec fn looks_like_yaml(t: Seq<char>, lower: Seq<char>) -> bool {
    ||| starts_with(t, "---"@)
    ||| starts_with(t, "- "@) && (has_char(t, ':') || lines(t).len() > 1)
    ||| any_yaml_mapping(lines(t)) && !contains(t, " = "@) && !starts_with(lower, "<"@)
}

/// The lines whose trimmed form is not empty.
pub open spec fn nonblank(ls: Seq<Seq<char>>) -> Seq<Seq<char>>
    decreases ls.len(),
{
    if ls.len() == 0 {
        Seq::empty()
    } else if trim(ls.last()).len() > 0 {
        nonblank(ls.drop_last()).push(ls.last())
    } else {
        nonblank(ls.drop_last())
    }
}

/// The first ten non-blank lines.
pub open spec fn csv_sample(ls: Seq<Seq<char>>) -> Seq<Seq<char>> {
    let nb = nonblank(ls);
    if nb.len() <= 10 {
        nb
    } else {
        nb.take(10)
    }
}

/// At least two sample lines, the first holds a comma, and every sample
/// line holds as many commas as the first.
pub open spec fn comma_consistent(ls: Seq<Seq<char>>) -> bool {
    let cl = csv_sample(ls);
    &&& cl.len() >= 2
    &&& count_char(cl[0], ',') > 0
    &&& forall|i: int| 1 <= i < cl.len() ==> #[trigger] count_char(cl[i], ',') == count_char(cl[0], ',')
}

pub open spec fn looks_like_csv(t: Seq<char>) -> bool {
    comma_consistent(lines(t))
}

pub open spec fn looks_like_markdown_list(t: Seq<char>) -> bool {
    ||| starts_with(t, "- "@) && !has_char(t, ':')
    ||| starts_with(t, "* "@) && !has_char(t, ':')
}

/// The text format of a trimmed text and its lowercase form, by the first
/// probe in this order that matches.
pub open spec fn text_class(t: Seq<char>, lower: Seq<char>) -> Format {
    if looks_like_html(lower) {
        Format::Html
    } else if looks_like_json(t) {
        Format::Json
    } else if looks_like_markdown_block(t) {
        Format::Markdown
    } else if looks_like_toml(t, lower) {
        Format::Toml
    } else if looks_like_yaml(t, lower) {
        Format::Yaml
    } else if looks_like_csv(t) {
        Format::Csv
    } else if looks_like_markdown_list(t) {
        Format::Markdown
    } else {
        Format::PlainText
    }
}

/// A list written with `* ` or `- ` bullets and no `:` is Markdown when
/// no earlier probe (HTML, JSON, heading, quote or fence, TOML, YAML, CSV)
/// claims it: the two bullet styles are classified alike.
pub proof fn lemma_bullet_lists_are_markdown(t: Seq<char>, lower: Seq<char>)
    requires
        starts_with(t, "* "@) || starts_with(t, "- "@),
        !has_char(t, ':'),
        !looks_like_html(lower),
        !looks_like_toml(t, lower),
        !looks_like_yaml(t, lower),
        !looks_like_csv(t),
    ensures
        text_class(t, lower) == Format::Markdown,
{
    reveal_strlit("* ");
    reveal_strlit("- ");
    reveal_strlit("{");
    reveal_strlit("[");
    reveal_strlit("# ");
    reveal_strlit("## ");
    reveal_strlit("### ");
    reveal_strlit("#### ");
    reveal_strlit("```");
    reveal_strlit("> ");
    assert(t.subrange(0, 2)[0] == t[0]);
    if starts_with(t, "{"@) {
        assert(t.subrange(0, 1)[0] == t[0]);
    }
    if starts_with(t, "["@) {
        assert(t.subrange(0, 1)[0] == t[0]);
    }
    if starts_with(t, "# "@) || starts_with(t, "## "@) || starts_with(t, "### "@) || starts_with(
        t,
        "#### "@,
    ) || starts_with(t, "```"@) || starts_with(t, "> "@) {
        assert(t.subrange(0, 1)[0] == t[0]);
        assert(t.subrange(0, 2)[0] == t[0]);
        assert(t.subrange(0, 3)[0] == t[0]);
        assert(t.subrange(0, 4)[0] == t[0]);
        assert(t.subrange(0, 5)[0] == t[0]);
    }
}

/// What each text probe decides when no earlier probe claims the text:
/// HTML markers win; then a text in braces or brackets is JSON; then a
/// text that opens with a Markdown heading, fence or quote is Markdown;
/// then TOML, YAML and CSV in turn; anything unclaimed is plain text.
pub proof fn lemma_text_probe_order(t: Seq<char>, lower: Seq<char>)
    ensures
        looks_like_html(lower) ==> text_class(t, lower) == Format::Html,
        !looks_like_html(lower) && (starts_with(t, "{"@) && ends_with(t, "}"@) || starts_with(
            t,
            "["@,
        ) && ends_with(t, "]"@)) ==> text_class(t, lower) == Format::Json,
        !looks_like_html(lower) && !looks_like_json(t) && (starts_with(t, "# "@) || starts_with(
            t,
            "## "@,
        ) || starts_with(t, "```"@) || starts_with(t, "> "@)) ==> text_class(t, lower)
            == Format::Markdown,
        !looks_like_html(lower) && !looks_like_json(t) && !looks_like_markdown_block(t)
            && looks_like_toml(t, lower) ==> text_class(t, lower) == Format::Toml,
        !looks_like_html(lower) && !looks_like_json(t) && !looks_like_markdown_block(t)
            && !looks_like_toml(t, lower) && starts_with(t, "---"@) ==> text_class(t, lower)
            == Format::Yaml,
        !looks_like_html(lower) && !looks_like_json(t) && !looks_like_markdown_block(t)
            && !looks_like_toml(t, lower) && !looks_like_yaml(t, lower) && looks_like_csv(t)
            ==> text_class(t, lower) == Format::Csv,
        !looks_like_html(lower) && !looks_like_json(t) && !looks_like_markdown_block(t)
            && !looks_like_toml(t, lower) && !looks_like_yaml(t, lower) && !looks_like_csv(t)
            && !looks_like_markdown_list(t) ==> text_class(t, lower) == Format::PlainText,
{
}

/// The text format of an untrimmed text.
pub open spec fn classify(text: Seq<char>) -> Format {
    text_class(trim(text), unicode_lowercase(trim(text)))
}

/// What `String::from_utf8_lossy` returns for these bytes.
pub uninterp spec fn utf8_lossy(bytes: Seq<u8>) -> Seq<char>;

/// The text of bytes read leniently: the decoding of valid UTF-8, the
/// lossy reading (`utf8_lossy`) of anything else.
pub open spec fn lossy_text(bytes: Seq<u8>) -> Seq<char> {
    if valid_utf8(bytes) {
        decode_utf8(bytes)
    } else {
        utf8_lossy(bytes)
    }
}

/// Which kind of ZIP container a decoded window shows.
pub open spec fn zip_class(window: Seq<char>) -> Format {
    if contains(window, "word/document.xml"@) || contains(window, "[Content_Types].xml"@) {
        Format::Docx
    } else if contains(window, "mimetypeapplication/vnd.oasis.opendocument"@) {
        Format::Odt
    } else {
        Format::Zip
    }
}

/// The format a byte buffer's signature (or content) shows, if any.
pub open spec fn sniff(buf: Seq<u8>) -> Option<Format> {
    if starts_with(buf, png_signature()) {
        Some(Format::Png)
    } else if starts_with(buf, jpeg_signature()) {
        Some(Format::Jpeg)
    } else if starts_with(buf, gif87_signature()) || starts_with(buf, gif89_signature()) {
        Some(Format::Gif)
    } else if starts_with(buf, bmp_signature()) {
        Some(Format::Bmp)
    } else if is_webp(buf) {
        Some(Format::WebP)
    } else if starts_with(buf, tiff_le_signature()) || starts_with(buf, tiff_be_signature()) {
        Some(Format::Tiff)
    } else if starts_with(buf, pdf_signature()) {
        Some(Format::Pdf)
    } else if starts_with(buf, zip_local_signature()) || starts_with(buf, zip_empty_signature()) {
        Some(zip_class(lossy_text(buf)))
    } else if valid_utf8(buf) {
        if printable_text(decode_utf8(buf)) {
            Some(classify(decode_utf8(buf)))
        } else {
            None
        }
    } else if texty_prefix(buf) {
        Some(classify(lossy_text(buf)))
    } else {
        None
    }
}

proof fn lemma_first_byte(buf: Seq<u8>, p: Seq<u8>)
    requires
        p.len() > 0,
    ensures
        starts_with(buf, p) ==> buf.len() > 0 && buf[0] == p[0],
{
    if starts_with(buf, p) {
        assert(buf.subrange(0, p.len() as int)[0] == buf[0]);
    }
}

/// Bytes that begin with a format's magic number are sniffed as that
/// format, whatever follows: the magic numbers exclude one another, so
/// neither the order of the probes nor a file's name can change the
/// answer.
pub proof fn lemma_magic_bytes_decide(buf: Seq<u8>)
    ensures
        starts_with(buf, png_signature()) ==> sniff(buf) == Some(Format::Png),
        starts_with(buf, jpeg_signature()) ==> sniff(buf) == Some(Format::Jpeg),
        starts_with(buf, gif87_signature()) || starts_with(buf, gif89_signature()) ==> sniff(buf)
            == Some(Format::Gif),
        starts_with(buf, bmp_signature()) ==> sniff(buf) == Some(Format::Bmp),
        is_webp(buf) ==> sniff(buf) == Some(Format::WebP),
        starts_with(buf, tiff_le_signature()) || starts_with(buf, tiff_be_signature()) ==> sniff(buf)
            == Some(Format::Tiff),
        starts_with(buf, pdf_signature()) ==> sniff(buf) == Some(Format::Pdf),
        starts_with(buf, zip_local_signature()) || starts_with(buf, zip_empty_signature()) ==> sniff(
            buf,
        ) == Some(zip_class(lossy_text(buf))),
{
    lemma_first_byte(buf, png_signature());
    lemma_first_byte(buf, jpeg_signature());
    lemma_first_byte(buf, gif87_signature());
    lemma_first_byte(buf, gif89_signature());
    lemma_first_byte(buf, bmp_signature());
    lemma_first_byte(buf, riff_tag());
    lemma_first_byte(buf, tiff_le_signature());
    lemma_first_byte(buf, tiff_be_signature());
    lemma_first_byte(buf, pdf_signature());
    lemma_first_byte(buf, zip_local_signature());
    lemma_first_byte(buf, zip_empty_signature());
    if is_webp(buf) {
        assert(buf.subrange(0, 4)[0] == buf[0]);
        assert(buf.subrange(0, 4) == riff_tag());
    }
}

// ---------------------------------------------------------------------
// Calls into std's UTF-8 decoding
// ---------------------------------------------------------------------

/// Calls `std::str::from_utf8`: it succeeds exactly on valid UTF-8, and the
/// text it returns is the decoding of the bytes.
#[verifier::external_body]
fn utf8_str(buf: &[u8]) -> (r: Option<&str>)
    ensures
        r is Some <==> valid_utf8(buf@),
        r matches Some(t) ==> t@ == decode_utf8(buf@),
{
    std::str::from_utf8(buf).ok()
}

/// Calls `String::from_utf8_lossy` and returns its characters; the result
/// is named `utf8_lossy` of the bytes. As std documents, valid UTF-8 is
/// decoded as it is; how invalid sequences are replaced is not stated.
#[verifier::external_body]
fn lossy_chars(buf: &[u8]) -> (r: Vec<char>)
    ensures
        r@ == utf8_lossy(buf@),
        valid_utf8(buf@) ==> r@ == decode_utf8(buf@),
{
    String::from_utf8_lossy(buf).chars().collect()
}

// ---------------------------------------------------------------------
// Executable probes
// ---------------------------------------------------------------------

fn bytes_start_with(buf: &[u8], pat: &[u8]) -> (r: bool)
    ensures
        r == starts_with(buf@, pat@),
{
    if pat.len() > buf.len() {
        return false;
    }
    let mut k: usize = 0;
    while k < pat.len()
        invariant
            pat@.len() <= buf@.len(),
            k <= pat@.len(),
            forall|j: int| 0 <= j < k ==> buf@[j] == pat@[j],
        decreases pat@.len() - k,
    {
        if buf[k] != pat[k] {
            assert(buf@.subrange(0, pat@.len() as int)[k as int] != pat@[k as int]);
            return false;
        }
        k = k + 1;
    }
    assert(buf@.subrange(0, pat@.len() as int) =~= pat@);
    true
}

fn is_printable_char_exec(c: char) -> (r: bool)
    ensures
        r == is_printable_char(c),
{
    !control(c) || c == '\n' || c == '\r' || c == '\t'
}

/// Whether the text is non-empty and more than 95% of its characters are
/// printable (not control characters, except newline, carriage return and
/// tab).
pub fn is_printable_text(text: &[char]) -> (r: bool)
    ensures
        r == printable_text(text@),
{
    let n = text.len();
    let mut good: usize = 0;
    let mut i: usize = 0;
    while i < n
        invariant
            n == text@.len(),
            i <= n,
            good == count_printable(text@.take(i as int)),
            good <= i,
        decreases n - i,
    {
        assert(text@.take(i + 1).drop_last() =~= text@.take(i as int));
        if is_printable_char_exec(text[i]) {
            good = good + 1;
        }
        i = i + 1;
    }
    assert(text@.take(n as int) =~= text@);
    if n == 0 {
        return false;
    }
    // 20 * good > 19 * n, computed without overflow
    let g = good as u128;
    let t = n as u128;
    20 * g > 19 * t
}

fn texty_prefix_exec(buf: &[u8]) -> (r: bool)
    ensures
        r == texty_prefix(buf@),
{
    let mut i: usize = 0;
    while i < buf.len() && i < 256
        invariant
            i <= buf@.len(),
            forall|j: int| 0 <= j < i ==> is_texty_byte(#[trigger] buf@[j]),
        decreases buf@.len() - i,
    {
        let b = buf[i];
        if !(b == 0x09 || b == 0x0A || b == 0x0D || (0x20 <= b && b <= 0x7E) || b >= 0x80) {
            return false;
        }
        i = i + 1;
    }
    true
}

pub fn looks_like_html_exec(lower: &[char]) -> (r: bool)
    ensures
        r == looks_like_html(lower@),
{
    starts_with_str(lower, "<!doctype html") || starts_with_str(lower, "<html") || starts_with_str(
        lower,
        "<head",
    ) || starts_with_str(lower, "<body") || starts_with_str(lower, "<?xml") || (contains_str(
        lower,
        "<html",
    ) && contains_str(lower, "</html>")) || (contains_str(lower, "<div") && contains_str(
        lower,
        "</div>",
    )) || (contains_str(lower, "<p>") && contains_str(lower, "</p>"))
}

pub fn looks_like_json_exec(t: &[char]) -> (r: bool)
    ensures
        r == looks_like_json(t@),
{
    (starts_with_str(t, "{") && ends_with_str(t, "}")) || (starts_with_str(t, "[") && ends_with_str(
        t,
        "]",
    )) || (starts_with_str(t, "{") && chars_have(t, ':')) || (starts_with_str(t, "[")
        && chars_have(t, ','))
}

pub fn looks_like_markdown_block_exec(t: &[char]) -> (r: bool)
    ensures
        r == looks_like_markdown_block(t@),
{
    starts_with_str(t, "# ") || starts_with_str(t, "## ") || starts_with_str(t, "### ")
        || starts_with_str(t, "#### ") || starts_with_str(t, "```") || starts_with_str(t, "> ")
}

fn toml_table_header_exec(t: &[char], ls: &Vec<Vec<char>>) -> (r: bool)
    requires
        char_views(ls@) == lines(t@),
    ensures
        r == toml_table_header(t@),
{
    if ls.len() == 0 {
        return false;
    }
    let l = ls[0].as_slice();
    assert(l@ == lines(t@)[0]);
    let lt = trim_chars(l);
    ends_with_str(lt.as_slice(), "]") && !chars_have(l, ':') && !chars_have(l, ',')
}

fn is_toml_assignment_exec(l: &[char]) -> (r: bool)
    ensures
        r == is_toml_assignment(l@),
{
    contains_str(l, " = ") || (chars_have(l, '=') && !chars_have(l, ';'))
}

fn any_toml_assignment_exec(ls: &Vec<Vec<char>>) -> (r: bool)
    ensures
        r == any_toml_assignment(char_views(ls@)),
{
    let mut i: usize = 0;
    while i < ls.len()
        invariant
            i <= ls@.len(),
            forall|j: int| 0 <= j < i ==> !is_toml_assignment(#[trigger] char_views(ls@)[j]),
        decreases ls@.len() - i,
    {
        if is_toml_assignment_exec(ls[i].as_slice()) {
            assert(is_toml_assignment(char_views(ls@)[i as int]));
            return true;
        }
        i = i + 1;
    }
    false
}

pub fn looks_like_toml_exec(t: &[char], lower: &[char], ls: &Vec<Vec<char>>) -> (r: bool)
    requires
        char_views(ls@) == lines(t@),
    ensures
        r == looks_like_toml(t@, lower@),
{
    (starts_with_str(t, "[") && toml_table_header_exec(t, ls)) || (any_toml_assignment_exec(ls)
        && !starts_with_str(lower, "<"))
}

fn is_yaml_mapping_line_exec(l: &[char]) -> (r: bool)
    ensures
        r == is_yaml_mapping_line(l@),
{
    let lt = trim_chars(l);
    let lt = lt.as_slice();
    !starts_with_str(lt, "#") && (contains_str(lt, ": ") || (ends_with_str(lt, ":")
        && !starts_with_str(lt, "http")))
}

fn any_yaml_mapping_exec(ls: &Vec<Vec<char>>) -> (r: bool)
    ensures
        r == any_yaml_mapping(char_views(ls@)),
{
    let mut i: usize = 0;
    while i < ls.len()
        invariant
            i <= ls@.len(),
            forall|j: int| 0 <= j < i ==> !is_yaml_mapping_line(#[trigger] char_views(ls@)[j]),
        decreases ls@.len() - i,
    {
        if is_yaml_mapping_line_exec(ls[i].as_slice()) {
            assert(is_yaml_mapping_line(char_views(ls@)[i as int]));
            return true;
        }
        i = i + 1;
    }
    false
}

pub fn looks_like_yaml_exec(t: &[char], lower: &[char], ls: &Vec<Vec<char>>) -> (r: bool)
    requires
        char_views(ls@) == lines(t@),
    ensures
        r == looks_like_yaml(t@, lower@),
{
    starts_with_str(t, "---") || (starts_with_str(t, "- ") && (chars_have(t, ':') || ls.len() > 1))
        || (any_yaml_mapping_exec(ls) && !contains_str(t, " = ") && !starts_with_str(lower, "<"))
}

/// The first ten non-blank lines.
fn csv_sample_exec(ls: &Vec<Vec<char>>) -> (r: Vec<Vec<char>>)
    ensures
        char_views(r@) == csv_sample(char_views(ls@)),
{
    let mut nb: Vec<Vec<char>> = Vec::new();
    let mut i: usize = 0;
    while i < ls.len()
        invariant
            i <= ls@.len(),
            char_views(nb@) == nonblank(char_views(ls@).take(i as int)),
        decreases ls@.len() - i,
    {
        let ghost pre = char_views(ls@).take(i as int);
        assert(char_views(ls@).take(i + 1).drop_last() =~= pre);
        assert(char_views(ls@).take(i + 1).last() == ls@[i as int]@);
        let lt = trim_chars(ls[i].as_slice());
        if lt.len() > 0 {
            let ghost before = char_views(nb@);
            let line = sub_line(&ls[i]);
            nb.push(line);
            assert(char_views(nb@) =~= before.push(ls@[i as int]@));
        }
        i = i + 1;
    }
    assert(char_views(ls@).take(ls@.len() as int) =~= char_views(ls@));
    if nb.len() <= 10 {
        nb
    } else {
        let mut out: Vec<Vec<char>> = Vec::new();
        let mut k: usize = 0;
        while k < 10
            invariant
                k <= 10 < nb@.len(),
                char_views(out@) == char_views(nb@).take(k as int),
            decreases 10 - k,
        {
            let ghost before = char_views(out@);
            let line = sub_line(&nb[k]);
            assert(char_views(nb@)[k as int] == nb@[k as int]@);
            out.push(line);
            assert(char_views(out@) =~= before.push(line@));
            assert(char_views(out@) =~= char_views(nb@).take(k + 1));
            k = k + 1;
        }
        out
    }
}

fn sub_line(l: &Vec<char>) -> (r: Vec<char>)
    ensures
        r@ == l@,
{
    let r = crate::text::sub_chars(l.as_slice(), 0, l.len());
    assert(l@.subrange(0, l@.len() as int) =~= l@);
    r
}

pub fn looks_like_csv_exec(ls: &Vec<Vec<char>>) -> (r: bool)
    ensures
        r == comma_consistent(char_views(ls@)),
{
    let cl = csv_sample_exec(ls);
    let ghost cv = char_views(cl@);
    assert(cv.len() == cl@.len());
    if cl.len() < 2 {
        return false;
    }
    assert(cl@[0]@ == cv[0]);
    let first = count_chars(cl[0].as_slice(), ',');
    if first == 0 {
        return false;
    }
    let mut i: usize = 1;
    while i < cl.len()
        invariant
            1 <= i <= cl@.len(),
            cv == char_views(cl@),
            cv == csv_sample(char_views(ls@)),
            first == count_char(cv[0], ','),
            forall|j: int| 1 <= j < i ==> #[trigger] count_char(cv[j], ',') == first,
        decreases cl@.len() - i,
    {
        assert(cl@[i as int]@ == cv[i as int]);
        if count_chars(cl[i].as_slice(), ',') != first {
            assert(count_char(cv[i as int], ',') != count_char(cv[0], ','));
            assert(csv_sample(char_views(ls@)) == cv);
            assert(!comma_consistent(char_views(ls@))) by {
                let cl = csv_sample(char_views(ls@));
                assert(count_char(cl[i as int], ',') != count_char(cl[0], ','));
            }
            return false;
        }
        i = i + 1;
    }
    true
}

pub fn looks_like_markdown_list_exec(t: &[char]) -> (r: bool)
    ensures
        r == looks_like_markdown_list(t@),
{
    (starts_with_str(t, "- ") && !chars_have(t, ':')) || (starts_with_str(t, "* ") && !chars_have(
        t,
        ':',
    ))
}

/// Classify a trimmed text, given its lowercase form.
pub fn classify_trimmed(t: &[char], lower: &[char]) -> (r: Format)
    ensures
        r == text_class(t@, lower@),
{
    let ls = split_lines(t);
    if looks_like_html_exec(lower) {
        Format::Html
    } else if looks_like_json_exec(t) {
        Format::Json
    } else if looks_like_markdown_block_exec(t) {
        Format::Markdown
    } else if looks_like_toml_exec(t, lower, &ls) {
        Format::Toml
    } else if looks_like_yaml_exec(t, lower, &ls) {
        Format::Yaml
    } else if looks_like_csv_exec(&ls) {
        Format::Csv
    } else if looks_like_markdown_list_exec(t) {
        Format::Markdown
    } else {
        Format::PlainText
    }
}

/// Classify decoded text: HTML, JSON, Markdown, TOML, YAML, CSV, or plain
/// text, by the first structural probe that matches.
pub fn classify_text(text: &[char]) -> (r: Format)
    ensures
        r == classify(text@),
{
    let trimmed = trim_chars(text);
    let lower = to_lowercase(trimmed.as_slice());
    classify_trimmed(trimmed.as_slice(), lower.as_slice())
}

/// Distinguish OOXML (docx) from ODF (odt) from a bare ZIP by the entry
/// names near the start of the archive.
pub fn classify_zip_container(buf: &[u8]) -> (r: Format)
    ensures
        r == zip_class(lossy_text(buf@)),
{
    let window = lossy_chars(buf);
    let w = window.as_slice();
    if contains_str(w, "word/document.xml") || contains_str(w, "[Content_Types].xml") {
        Format::Docx
    } else if contains_str(w, "mimetypeapplication/vnd.oasis.opendocument") {
        Format::Odt
    } else {
        Format::Zip
    }
}

/// Pure byte-signature classifier: the format the bytes show, or `None`
/// when no signature or text probe recognises them.
pub fn sniff_bytes(buf: &[u8]) -> (r: Option<Format>)
    ensures
        r == sniff(buf@),
{
    let png: [u8; 8] = [0x89u8, 0x50u8, 0x4Eu8, 0x47u8, 0x0Du8, 0x0Au8, 0x1Au8, 0x0Au8];
    let jpeg: [u8; 3] = [0xFFu8, 0xD8u8, 0xFFu8];
    let gif87: [u8; 6] = [0x47u8, 0x49u8, 0x46u8, 0x38u8, 0x37u8, 0x61u8];
    let gif89: [u8; 6] = [0x47u8, 0x49u8, 0x46u8, 0x38u8, 0x39u8, 0x61u8];
    let bmp: [u8; 2] = [0x42u8, 0x4Du8];
    let tiff_le: [u8; 4] = [0x49u8, 0x49u8, 0x2Au8, 0x00u8];
    let tiff_be: [u8; 4] = [0x4Du8, 0x4Du8, 0x00u8, 0x2Au8];
    let pdf: [u8; 5] = [0x25u8, 0x50u8, 0x44u8, 0x46u8, 0x2Du8];
    let zip_local: [u8; 4] = [0x50u8, 0x4Bu8, 0x03u8, 0x04u8];
    let zip_empty: [u8; 4] = [0x50u8, 0x4Bu8, 0x05u8, 0x06u8];
    if bytes_start_with(buf, &png) {
        return Some(Format::Png);
    }
    if bytes_start_with(buf, &jpeg) {
        return Some(Format::Jpeg);
    }
    if bytes_start_with(buf, &gif87) || bytes_start_with(buf, &gif89) {
        return Some(Format::Gif);
    }
    if bytes_start_with(buf, &bmp) {
        return Some(Format::Bmp);
    }
    if buf.len() >= 12 && buf[0] == 0x52 && buf[1] == 0x49 && buf[2] == 0x46 && buf[3] == 0x46
        && buf[8] == 0x57 && buf[9] == 0x45 && buf[10] == 0x42 && buf[11] == 0x50 {
        assert(buf@.subrange(0, 4) =~= riff_tag());
        assert(buf@.subrange(8, 12) =~= webp_tag());
        return Some(Format::WebP);
    }
    assert(!is_webp(buf@)) by {
        if buf@.len() >= 12 && buf@.subrange(0, 4) == riff_tag() && buf@.subrange(8, 12) == webp_tag() {
            assert(buf@.subrange(0, 4)[0] == buf@[0]);
            assert(buf@.subrange(0, 4)[1] == buf@[1]);
            assert(buf@.subrange(0, 4)[2] == buf@[2]);
            assert(buf@.subrange(0, 4)[3] == buf@[3]);
            assert(buf@.subrange(8, 12)[0] == buf@[8]);
            assert(buf@.subrange(8, 12)[1] == buf@[9]);
            assert(buf@.subrange(8, 12)[2] == buf@[10]);
            assert(buf@.subrange(8, 12)[3] == buf@[11]);
        }
    }
    if bytes_start_with(buf, &tiff_le) || bytes_start_with(buf, &tiff_be) {
        return Some(Format::Tiff);
    }
    if bytes_start_with(buf, &pdf) {
        return Some(Format::Pdf);
    }
    if bytes_start_with(buf, &zip_local) || bytes_start_with(buf, &zip_empty) {
        return Some(classify_zip_container(buf));
    }
    match utf8_str(buf) {
        Some(text) => {
            let chars = chars_of(text);
            if is_printable_text(chars.as_slice()) {
                Some(classify_text(chars.as_slice()))
            } else {
                None
            }
        },
        None => {
            if texty_prefix_exec(buf) {
                let lossy = lossy_chars(buf);
                Some(classify_text(lossy.as_slice()))
            } else {
                None
            }
        },
    }
}

/// How many leading bytes of a file are read to sniff its format.
pub const SNIFF_WINDOW: usize = 1024;

/// The format of a file from the first bytes read from it (at most
/// `SNIFF_WINDOW`): an empty read means an empty file; bytes no sniffer
/// recognises are an unknown signature.
pub fn detect_from_prefix(path: PathBuf, prefix: &[u8]) -> (r: Result<Format, DetectError>)
    ensures
        prefix@.len() == 0 ==> (r matches Err(DetectError::EmptyFile(p)) && p == path),
        prefix@.len() > 0 ==> match sniff(prefix@) {
            Some(f) => r == Ok::<Format, DetectError>(f),
            None => r matches Err(DetectError::UnknownSignature(p)) && p == path,
        },
{
    if prefix.len() == 0 {
        return Err(DetectError::EmptyFile(path));
    }
    match sniff_bytes(prefix) {
        Some(f) => Ok(f),
        None => Err(DetectError::UnknownSignature(path)),
    }
}

} // verus!
