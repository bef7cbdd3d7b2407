//! Post-conversion validation: an adapter reporting success is not proof
//! that a real conversion happened, so the output's bytes are re-sniffed
//! and must show the target format's signature.
use vstd::prelude::*;
use vstd::slice::slice_subrange;
use std::path::PathBuf;
use crate::detection::{sniff, sniff_bytes};
use crate::errors::ValidationError;
use crate::format::{Format, format_name};

verus! {

/// The leading bytes that are re-sniffed: at most 512.
pub open spec fn validation_window(bytes: Seq<u8>) -> Seq<u8> {
    if bytes.len() <= 512 {
        bytes
    } else {
        bytes.take(512)
    }
}

/// The formats the text classifier can give.
pub open spec fn is_text_format(f: Format) -> bool {
    match f {
        Format::PlainText | Format::Json | Format::Yaml | Format::Toml | Format::Csv
        | Format::Markdown | Format::Html => true,
        _ => false,
    }
}

/// Whether a sniffed output satisfies the expected format: its signature
/// is that format, or plain text was expected and the output is text of
/// any kind (plain text has no signature of its own; any text is plain
/// text).
pub open spec fn satisfies(expected: Format, actual: Option<Format>) -> bool {
    ||| actual == Some(expected)
    ||| expected == Format::PlainText && (actual matches Some(a) && is_text_format(a))
}

/// Validate the content of an output file (at `output`) against the
/// expected format: it must be non-empty and the signature of its first
/// 512 bytes must be `expected` (for plain text, any text). Container
/// formats (docx/odt/zip) are validated at the container level only.
pub fn validate_output_bytes(output: PathBuf, bytes: &[u8], expected: Format) -> (r: Result<
    (),
    ValidationError,
>)
    ensures
        bytes@.len() == 0 ==> (r matches Err(ValidationError::OutputEmpty(p)) && p == output),
        bytes@.len() > 0 ==> (r is Ok <==> satisfies(expected, sniff(validation_window(bytes@)))),
        bytes@.len() > 0 && !satisfies(expected, sniff(validation_window(bytes@))) ==> (r matches Err(
            ValidationError::SignatureMismatch { expected: e, actual: a },
        ) && e@ == format_name(expected) && match sniff(validation_window(bytes@)) {
            Some(x) => a matches Some(s) && s@ == format_name(x),
            None => a is None,
        }),
{
    if bytes.len() == 0 {
        return Err(ValidationError::OutputEmpty(output));
    }
    let end = if bytes.len() < 512 {
        bytes.len()
    } else {
        512
    };
    let window = slice_subrange(bytes, 0, end);
    assert(window@ =~= validation_window(bytes@));
    match sniff_bytes(window) {
        Some(actual) => {
            let text = match actual {
                Format::PlainText | Format::Json | Format::Yaml | Format::Toml | Format::Csv
                | Format::Markdown | Format::Html => true,
                _ => false,
            };
            if actual == expected || (expected == Format::PlainText && text) {
                Ok(())
            } else {
                Err(
                    ValidationError::SignatureMismatch {
                        expected: String::from_str(expected.as_str()),
                        actual: Some(String::from_str(actual.as_str())),
                    },
                )
            }
        },
        None => Err(
            ValidationError::SignatureMismatch {
                expected: String::from_str(expected.as_str()),
                actual: None,
            },
        ),
    }
}

} // verus!
