//! The formats the converter can identify, their canonical names, and the
//! parsing of user-supplied format names.
use vstd::prelude::*;
use crate::text::{
    is_white_space,
    ascii_lowercase, chars_equal_str, chars_of, is_ascii_text, lemma_trim_ascii, to_lowercase, trim,
    trim_chars, unicode_lowercase,
};

verus! {

/// Formats this library knows how to *identify*. Adapters may support a
/// subset of these for actual conversion.
#[derive(Debug, Clone, Copy, PartialEq, Eq, Hash, Structural)]
pub enum Format {
    Png,
    Jpeg,
    Gif,
    Bmp,
    WebP,
    Tiff,
    Pdf,
    /// Also covers docx/xlsx/pptx/odt containers at the container level.
    Zip,
    Docx,
    Odt,
    PlainText,
    Json,
    Yaml,
    Toml,
    Csv,
    Markdown,
    Html,
}

/// The canonical (extension-style) name of each format.
pub open spec fn format_name(f: Format) -> Seq<char> {
    match f {
        Format::Png => "png"@,
        Format::Jpeg => "jpeg"@,
        Format::Gif => "gif"@,
        Format::Bmp => "bmp"@,
        Format::WebP => "webp"@,
        Format::Tiff => "tiff"@,
        Format::Pdf => "pdf"@,
        Format::Zip => "zip"@,
        Format::Docx => "docx"@,
        Format::Odt => "odt"@,
        Format::PlainText => "txt"@,
        Format::Json => "json"@,
        Format::Yaml => "yaml"@,
        Format::Toml => "toml"@,
        Format::Csv => "csv"@,
        Format::Markdown => "md"@,
        Format::Html => "html"@,
    }
}

/// The format a (trimmed, lowercased) name denotes, with its accepted
/// aliases.
pub open spec fn format_from_key(k: Seq<char>) -> Option<Format> {
    if k == "png"@ {
        Some(Format::Png)
    } else if k == "jpeg"@ || k == "jpg"@ {
        Some(Format::Jpeg)
    } else if k == "gif"@ {
        Some(Format::Gif)
    } else if k == "bmp"@ {
        Some(Format::Bmp)
    } else if k == "webp"@ {
        Some(Format::WebP)
    } else if k == "tiff"@ || k == "tif"@ {
        Some(Format::Tiff)
    } else if k == "pdf"@ {
        Some(Format::Pdf)
    } else if k == "zip"@ {
        Some(Format::Zip)
    } else if k == "docx"@ {
        Some(Format::Docx)
    } else if k == "odt"@ {
        Some(Format::Odt)
    } else if k == "txt"@ || k == "text"@ || k == "plain"@ {
        Some(Format::PlainText)
    } else if k == "json"@ {
        Some(Format::Json)
    } else if k == "yaml"@ || k == "yml"@ {
        Some(Format::Yaml)
    } else if k == "toml"@ {
        Some(Format::Toml)
    } else if k == "csv"@ {
        Some(Format::Csv)
    } else if k == "md"@ || k == "markdown"@ {
        Some(Format::Markdown)
    } else if k == "html"@ || k == "htm"@ {
        Some(Format::Html)
    } else {
        None
    }
}

impl Format {
    pub fn as_str(&self) -> (r: &'static str)
        ensures
            r@ == format_name(*self),
    {
        match self {
            Format::Png => "png",
            Format::Jpeg => "jpeg",
            Format::Gif => "gif",
            Format::Bmp => "bmp",
            Format::WebP => "webp",
            Format::Tiff => "tiff",
            Format::Pdf => "pdf",
            Format::Zip => "zip",
            Format::Docx => "docx",
            Format::Odt => "odt",
            Format::PlainText => "txt",
            Format::Json => "json",
            Format::Yaml => "yaml",
            Format::Toml => "toml",
            Format::Csv => "csv",
            Format::Markdown => "md",
            Format::Html => "html",
        }
    }

    /// Parse a user-supplied format name: surrounding whitespace is ignored
    /// and the name is compared case-insensitively.
    pub fn from_str(s: &str) -> (r: Option<Format>)
        ensures
            r == format_from_key(unicode_lowercase(trim(s@))),
            is_ascii_text(s@) ==> r == format_from_key(ascii_lowercase(trim(s@))),
    {
        let raw = chars_of(s);
        let trimmed = trim_chars(raw.as_slice());
        proof {
            lemma_trim_ascii(s@);
        }
        let k = to_lowercase(trimmed.as_slice());
        let k = k.as_slice();
        if chars_equal_str(k, "png") {
            Some(Format::Png)
        } else if chars_equal_str(k, "jpeg") || chars_equal_str(k, "jpg") {
            Some(Format::Jpeg)
        } else if chars_equal_str(k, "gif") {
            Some(Format::Gif)
        } else if chars_equal_str(k, "bmp") {
            Some(Format::Bmp)
        } else if chars_equal_str(k, "webp") {
            Some(Format::WebP)
        } else if chars_equal_str(k, "tiff") || chars_equal_str(k, "tif") {
            Some(Format::Tiff)
        } else if chars_equal_str(k, "pdf") {
            Some(Format::Pdf)
        } else if chars_equal_str(k, "zip") {
            Some(Format::Zip)
        } else if chars_equal_str(k, "docx") {
            Some(Format::Docx)
        } else if chars_equal_str(k, "odt") {
            Some(Format::Odt)
        } else if chars_equal_str(k, "txt") || chars_equal_str(k, "text") || chars_equal_str(
            k,
            "plain",
        ) {
            Some(Format::PlainText)
        } else if chars_equal_str(k, "json") {
            Some(Format::Json)
        } else if chars_equal_str(k, "yaml") || chars_equal_str(k, "yml") {
            Some(Format::Yaml)
        } else if chars_equal_str(k, "toml") {
            Some(Format::Toml)
        } else if chars_equal_str(k, "csv") {
            Some(Format::Csv)
        } else if chars_equal_str(k, "md") || chars_equal_str(k, "markdown") {
            Some(Format::Markdown)
        } else if chars_equal_str(k, "html") || chars_equal_str(k, "htm") {
            Some(Format::Html)
        } else {
            None
        }
    }
}

proof fn lemma_plain_name(n: Seq<char>)
    requires
        forall|i: int| 0 <= i < n.len() ==> 'a' <= #[trigger] n[i] <= 'z',
        n.len() > 0,
    ensures
        trim(n) == n,
        ascii_lowercase(n) == n,
{
    assert(!is_white_space(n[0]));
    assert(!is_white_space(n.last()));
    assert(ascii_lowercase(n) =~= n);
}

/// A canonical name parses back to its format: `from_str(f.as_str())` is
/// `Some(f)` for every format (names are ASCII, so this is the ASCII case
/// of `from_str`'s contract).
pub proof fn lemma_format_name_round_trip(f: Format)
    ensures
        is_ascii_text(format_name(f)),
        format_from_key(ascii_lowercase(trim(format_name(f)))) == Some(f),
{
    reveal_strlit("png");
    reveal_strlit("jpeg");
    reveal_strlit("jpg");
    reveal_strlit("gif");
    reveal_strlit("bmp");
    reveal_strlit("webp");
    reveal_strlit("tiff");
    reveal_strlit("tif");
    reveal_strlit("pdf");
    reveal_strlit("zip");
    reveal_strlit("docx");
    reveal_strlit("odt");
    reveal_strlit("txt");
    reveal_strlit("text");
    reveal_strlit("plain");
    reveal_strlit("json");
    reveal_strlit("yaml");
    reveal_strlit("yml");
    reveal_strlit("toml");
    reveal_strlit("csv");
    reveal_strlit("md");
    reveal_strlit("markdown");
    reveal_strlit("html");
    reveal_strlit("htm");
    let n = format_name(f);
    lemma_plain_name(n);
}

} // verus!
