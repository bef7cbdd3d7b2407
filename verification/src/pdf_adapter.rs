//! PDF: text extraction from a PDF's object graph, and text laid out into
//! a new PDF. The PDF parser and text extractor are handed in by the
//! caller; the library decides what their answers make of a conversion.
use vstd::prelude::*;
use crate::format::{format_name, Format};
use crate::registry::{ConversionAdapter, Route};
use crate::text::{
    string_views, is_white_space, trim, trim_chars, white_space, chars_of, chars_to_string, starts_with,
};
use crate::text::with_detail;

verus! {

pub struct PdfAdapter;

pub open spec fn pdf_routes() -> Seq<Route> {
    seq![
        (Format::Pdf, Format::PlainText),
        (Format::PlainText, Format::Pdf)
    ]
}

impl ConversionAdapter for PdfAdapter {
    open spec fn spec_name(&self) -> Seq<char> {
        "pdf-adapter"@
    }

    open spec fn spec_routes(&self) -> Seq<Route> {
        pdf_routes()
    }

    fn name(&self) -> (r: &'static str) {
        "pdf-adapter"
    }

    fn supported_routes(&self) -> (r: Vec<Route>) {
        let r = vec![
            (Format::Pdf, Format::PlainText),
            (Format::PlainText, Format::Pdf)
        ];
        assert(r@ =~= pdf_routes());
        r
    }
}

// ---------------------------------------------------------------------
// Word wrapping of text laid out into a PDF
// ---------------------------------------------------------------------

/// Bytes of `c` in UTF-8.
pub open spec fn char_utf8_len(c: char) -> nat {
    let u = c as u32;
    if u < 0x80 {
        1
    } else if u < 0x800 {
        2
    } else if u < 0x10000 {
        3
    } else {
        4
    }
}

/// Bytes of `s` in UTF-8 (what `str::len` counts).
pub open spec fn utf8_len(s: Seq<char>) -> nat
    decreases s.len(),
{
    if s.len() == 0 {
        0
    } else {
        utf8_len(s.drop_last()) + char_utf8_len(s.last())
    }
}

/// Pieces of `cur + rest` split at every `'\n'` (what `str::split('\n')`
/// yields: a final empty piece after a trailing newline included).
pub open spec fn split_newlines_from(cur: Seq<char>, rest: Seq<char>) -> Seq<Seq<char>>
    decreases rest.len(),
{
    if rest.len() == 0 {
        seq![cur]
    } else if rest[0] == '\n' {
        seq![cur] + split_newlines_from(Seq::empty(), rest.drop_first())
    } else {
        split_newlines_from(cur.push(rest[0]), rest.drop_first())
    }
}

/// Whitespace-separated words of `cur + rest` (what `str::split_whitespace`
/// yields: no empty words).
pub open spec fn words_from(cur: Seq<char>, rest: Seq<char>) -> Seq<Seq<char>>
    decreases rest.len(),
{
    if rest.len() == 0 {
        if cur.len() == 0 {
            Seq::empty()
        } else {
            seq![cur]
        }
    } else if is_white_space(rest[0]) {
        if cur.len() == 0 {
            words_from(Seq::empty(), rest.drop_first())
        } else {
            seq![cur] + words_from(Seq::empty(), rest.drop_first())
        }
    } else {
        words_from(cur.push(rest[0]), rest.drop_first())
    }
}

/// Lay out the words `ws` after the partial line `line`: a word that would
/// push the line (plus a separating space) past `max` bytes first closes
/// the current line (even an empty one). The last partial line is kept
/// when it is not empty.
pub open spec fn wrap_words(ws: Seq<Seq<char>>, line: Seq<char>, out: Seq<Seq<char>>, max: nat) -> Seq<
    Seq<char>,
>
    decreases ws.len(),
{
    if ws.len() == 0 {
        if line.len() > 0 {
            out.push(line)
        } else {
            out
        }
    } else {
        let w = ws[0];
        let overflow = utf8_len(line) + utf8_len(w) + 1 > max;
        let out1 = if overflow {
            out.push(line)
        } else {
            out
        };
        let l1 = if overflow {
            Seq::empty()
        } else {
            line
        };
        let l2 = if l1.len() > 0 {
            l1.push(' ')
        } else {
            l1
        };
        wrap_words(ws.drop_first(), l2 + w, out1, max)
    }
}

/// Lay out paragraph pieces: an empty piece is an empty line, any other
/// piece is wrapped word by word.
pub open spec fn wrap_pieces(ps: Seq<Seq<char>>, out: Seq<Seq<char>>, max: nat) -> Seq<Seq<char>>
    decreases ps.len(),
{
    if ps.len() == 0 {
        out
    } else if ps[0].len() == 0 {
        wrap_pieces(ps.drop_first(), out.push(Seq::empty()), max)
    } else {
        wrap_pieces(ps.drop_first(), wrap_words(words_from(Seq::empty(), ps[0]), Seq::empty(), out, max), max)
    }
}

/// The lines of `content` wrapped so that no line grows past `max` bytes
/// where a break is possible.
pub open spec fn wrapped(content: Seq<char>, max: nat) -> Seq<Seq<char>> {
    wrap_pieces(split_newlines_from(Seq::empty(), content), Seq::empty(), max)
}

/// Whether `s` holds no space character.
pub open spec fn space_free(s: Seq<char>) -> bool {
    forall|j: int| 0 <= j < s.len() ==> #[trigger] s[j] != ' '
}

/// Whether a laid-out line stays within `max` bytes, or is a single word
/// (holds no space) that no break could shorten.
pub open spec fn line_fits(line: Seq<char>, max: nat) -> bool {
    utf8_len(line) <= max || space_free(line)
}

proof fn lemma_utf8_len_concat(a: Seq<char>, b: Seq<char>)
    ensures
        utf8_len(a + b) == utf8_len(a) + utf8_len(b),
    decreases b.len(),
{
    if b.len() > 0 {
        lemma_utf8_len_concat(a, b.drop_last());
        assert((a + b).drop_last() =~= a + b.drop_last());
        assert((a + b).last() == b.last());
    } else {
        assert(a + b =~= a);
    }
}

proof fn lemma_utf8_len_space()
    ensures
        utf8_len(seq![' ']) == 1,
{
    let s = seq![' '];
    assert(s.drop_last() =~= Seq::<char>::empty());
    assert(utf8_len(Seq::<char>::empty()) == 0);
    assert(s.last() == ' ');
    assert((' ' as u32) < 0x80);
}

proof fn lemma_words_have_no_space(cur: Seq<char>, rest: Seq<char>)
    requires
        space_free(cur),
    ensures
        forall|i: int|
            0 <= i < words_from(cur, rest).len() ==> space_free(#[trigger] words_from(cur, rest)[i]),
    decreases rest.len(),
{
    if rest.len() == 0 {
        if cur.len() > 0 {
            assert(words_from(cur, rest) == seq![cur]);
            assert(words_from(cur, rest)[0] == cur);
        }
    } else if is_white_space(rest[0]) {
        lemma_words_have_no_space(Seq::empty(), rest.drop_first());
        let tail = words_from(Seq::empty(), rest.drop_first());
        assert(space_free(Seq::<char>::empty()));
        if cur.len() == 0 {
            assert(words_from(cur, rest) == tail);
        } else {
            assert(words_from(cur, rest) == seq![cur] + tail);
            assert forall|i: int| 0 <= i < words_from(cur, rest).len() implies space_free(
                #[trigger] words_from(cur, rest)[i],
            ) by {
                if i > 0 {
                    assert(words_from(cur, rest)[i] == tail[i - 1]);
                } else {
                    assert(words_from(cur, rest)[i] == cur);
                }
            }
        }
    } else {
        assert(rest[0] != ' ');
        let c2 = cur.push(rest[0]);
        assert forall|j: int| 0 <= j < c2.len() implies #[trigger] c2[j] != ' ' by {
            if j < cur.len() {
                assert(c2[j] == cur[j]);
            }
        }
        lemma_words_have_no_space(c2, rest.drop_first());
        assert(words_from(cur, rest) == words_from(c2, rest.drop_first()));
    }
}

proof fn lemma_wrap_words_fit(ws: Seq<Seq<char>>, line: Seq<char>, out: Seq<Seq<char>>, max: nat)
    requires
        forall|i: int| 0 <= i < ws.len() ==> space_free(#[trigger] ws[i]),
        line_fits(line, max),
        forall|i: int| 0 <= i < out.len() ==> line_fits(#[trigger] out[i], max),
    ensures
        forall|i: int|
            0 <= i < wrap_words(ws, line, out, max).len() ==> line_fits(
                #[trigger] wrap_words(ws, line, out, max)[i],
                max,
            ),
    decreases ws.len(),
{
    if ws.len() > 0 {
        let w = ws[0];
        assert(space_free(w));
        let overflow = utf8_len(line) + utf8_len(w) + 1 > max;
        let out1 = if overflow {
            out.push(line)
        } else {
            out
        };
        let l1 = if overflow {
            Seq::empty()
        } else {
            line
        };
        let l2 = if l1.len() > 0 {
            l1.push(' ')
        } else {
            l1
        };
        assert forall|i: int| 0 <= i < out1.len() implies line_fits(#[trigger] out1[i], max) by {
            if i < out.len() {
                assert(out1[i] == out[i]);
            }
        }
        if l1.len() > 0 {
            lemma_utf8_len_concat(l2, w);
            lemma_utf8_len_concat(l1, seq![' ']);
            lemma_utf8_len_space();
            assert(l1.push(' ') =~= l1 + seq![' ']);
            assert(utf8_len(l2 + w) <= max);
        } else {
            assert(l2 + w =~= w);
        }
        assert(line_fits(l2 + w, max));
        let rest = ws.drop_first();
        assert forall|i: int| 0 <= i < rest.len() implies space_free(#[trigger] rest[i]) by {
            assert(rest[i] == ws[i + 1]);
        }
        lemma_wrap_words_fit(rest, l2 + w, out1, max);
        assert(wrap_words(ws, line, out, max) == wrap_words(rest, l2 + w, out1, max));
    } else {
        if line.len() > 0 {
            assert forall|i: int| 0 <= i < out.push(line).len() implies line_fits(
                #[trigger] out.push(line)[i],
                max,
            ) by {
                if i < out.len() {
                    assert(out.push(line)[i] == out[i]);
                }
            }
        }
    }
}

proof fn lemma_wrap_pieces_fit(ps: Seq<Seq<char>>, out: Seq<Seq<char>>, max: nat)
    requires
        forall|i: int| 0 <= i < out.len() ==> line_fits(#[trigger] out[i], max),
    ensures
        forall|i: int|
            0 <= i < wrap_pieces(ps, out, max).len() ==> line_fits(
                #[trigger] wrap_pieces(ps, out, max)[i],
                max,
            ),
    decreases ps.len(),
{
    if ps.len() > 0 {
        if ps[0].len() == 0 {
            let o = out.push(Seq::empty());
            assert(space_free(Seq::<char>::empty()));
            assert forall|i: int| 0 <= i < o.len() implies line_fits(#[trigger] o[i], max) by {
                if i < out.len() {
                    assert(o[i] == out[i]);
                }
            }
            lemma_wrap_pieces_fit(ps.drop_first(), o, max);
            assert(wrap_pieces(ps, out, max) == wrap_pieces(ps.drop_first(), o, max));
        } else {
            let ws = words_from(Seq::empty(), ps[0]);
            assert(space_free(Seq::<char>::empty()));
            lemma_words_have_no_space(Seq::empty(), ps[0]);
            lemma_wrap_words_fit(ws, Seq::empty(), out, max);
            lemma_wrap_pieces_fit(ps.drop_first(), wrap_words(ws, Seq::empty(), out, max), max);
            assert(wrap_pieces(ps, out, max) == wrap_pieces(
                ps.drop_first(),
                wrap_words(ws, Seq::empty(), out, max),
                max,
            ));
        }
    }
}

/// Word wrap keeps lines inside the margin wherever it can: every line
/// it lays out is at most `max` bytes long, unless it is a single word
/// (no space) longer than that.
pub proof fn lemma_wrapped_lines_fit(content: Seq<char>, max: nat)
    ensures
        forall|i: int|
            0 <= i < wrapped(content, max).len() ==> line_fits(#[trigger] wrapped(content, max)[i], max),
{
    lemma_wrap_pieces_fit(split_newlines_from(Seq::empty(), content), Seq::empty(), max);
}

proof fn lemma_utf8_len_bound(s: Seq<char>)
    ensures
        utf8_len(s) <= 4 * s.len(),
    decreases s.len(),
{
    if s.len() > 0 {
        lemma_utf8_len_bound(s.drop_last());
    }
}

fn char_utf8_len_exec(c: char) -> (r: u128)
    ensures
        r == char_utf8_len(c),
{
    let u = c as u32;
    if u < 0x80 {
        1
    } else if u < 0x800 {
        2
    } else if u < 0x10000 {
        3
    } else {
        4
    }
}

fn utf8_len_exec(s: &[char]) -> (r: u128)
    ensures
        r == utf8_len(s@),
        r <= 4 * s@.len(),
{
    let mut n: u128 = 0;
    let mut i: usize = 0;
    while i < s.len()
        invariant
            i <= s@.len(),
            n == utf8_len(s@.take(i as int)),
            n <= 4 * i,
        decreases s@.len() - i,
    {
        assert(s@.take(i + 1).drop_last() =~= s@.take(i as int));
        n = n + char_utf8_len_exec(s[i]);
        i = i + 1;
    }
    assert(s@.take(s@.len() as int) =~= s@);
    n
}

fn split_newlines(s: &[char]) -> (r: Vec<Vec<char>>)
    ensures
        crate::text::char_views(r@) == split_newlines_from(Seq::empty(), s@),
{
    let mut out: Vec<Vec<char>> = Vec::new();
    let mut cur: Vec<char> = Vec::new();
    let mut i: usize = 0;
    assert(s@.skip(0) =~= s@);
    while i < s.len()
        invariant
            i <= s@.len(),
            split_newlines_from(Seq::empty(), s@) == crate::text::char_views(out@)
                + split_newlines_from(cur@, s@.skip(i as int)),
        decreases s@.len() - i,
    {
        let ghost rest = s@.skip(i as int);
        assert(rest[0] == s@[i as int]);
        assert(rest.drop_first() =~= s@.skip(i + 1));
        if s[i] == '\n' {
            let ghost before = crate::text::char_views(out@);
            let ghost c = cur@;
            out.push(cur);
            assert(crate::text::char_views(out@) =~= before.push(c));
            assert(before + (seq![c] + split_newlines_from(Seq::empty(), rest.drop_first())) =~= before.push(c)
                + split_newlines_from(Seq::empty(), rest.drop_first()));
            cur = Vec::new();
        } else {
            cur.push(s[i]);
        }
        i = i + 1;
    }
    assert(s@.skip(s@.len() as int) =~= Seq::<char>::empty());
    let ghost before = crate::text::char_views(out@);
    let ghost c = cur@;
    out.push(cur);
    assert(crate::text::char_views(out@) =~= before + seq![c]);
    out
}

fn split_words(s: &[char]) -> (r: Vec<Vec<char>>)
    ensures
        crate::text::char_views(r@) == words_from(Seq::empty(), s@),
{
    let mut out: Vec<Vec<char>> = Vec::new();
    let mut cur: Vec<char> = Vec::new();
    let mut i: usize = 0;
    assert(s@.skip(0) =~= s@);
    while i < s.len()
        invariant
            i <= s@.len(),
            words_from(Seq::empty(), s@) == crate::text::char_views(out@) + words_from(cur@, s@.skip(i as int)),
        decreases s@.len() - i,
    {
        let ghost rest = s@.skip(i as int);
        assert(rest[0] == s@[i as int]);
        assert(rest.drop_first() =~= s@.skip(i + 1));
        if white_space(s[i]) {
            if cur.len() == 0 {
                assert(cur@ =~= Seq::<char>::empty());
            }
            if cur.len() > 0 {
                let ghost before = crate::text::char_views(out@);
                let ghost c = cur@;
                out.push(cur);
                assert(crate::text::char_views(out@) =~= before.push(c));
                assert(before + (seq![c] + words_from(Seq::empty(), rest.drop_first())) =~= before.push(c)
                    + words_from(Seq::empty(), rest.drop_first()));
                cur = Vec::new();
            }
        } else {
            cur.push(s[i]);
        }
        i = i + 1;
    }
    assert(s@.skip(s@.len() as int) =~= Seq::<char>::empty());
    if cur.len() > 0 {
        let ghost before = crate::text::char_views(out@);
        let ghost c = cur@;
        out.push(cur);
        assert(crate::text::char_views(out@) =~= before + seq![c]);
    } else {
        assert(crate::text::char_views(out@) + Seq::<Seq<char>>::empty() =~= crate::text::char_views(out@));
    }
    out
}

fn push_line(out: &mut Vec<String>, line: &[char])
    ensures
        string_views(final(out)@) == string_views(old(out)@).push(line@),
{
    let ghost before = string_views(out@);
    out.push(chars_to_string(line));
    assert(string_views(out@) =~= before.push(line@));
}

/// Naive word wrap: split at newlines, then at whitespace, and start a
/// new line whenever a word (plus a space) would make the current line
/// longer than `max_chars` bytes.
pub fn wrap_text(content: &str, max_chars: usize) -> (r: Vec<String>)
    ensures
        string_views(r@) == wrapped(content@, max_chars as nat),
{
    let text = chars_of(content);
    let pieces = split_newlines(text.as_slice());
    let ghost ps = crate::text::char_views(pieces@);
    let mut out: Vec<String> = Vec::new();
    let mut p: usize = 0;
    assert(ps.skip(0) =~= ps);
    assert(string_views(out@) =~= Seq::<Seq<char>>::empty());
    while p < pieces.len()
        invariant
            p <= pieces@.len(),
            ps == crate::text::char_views(pieces@),
            wrapped(content@, max_chars as nat) == wrap_pieces(ps.skip(p as int), string_views(out@), max_chars as nat),
        decreases pieces@.len() - p,
    {
        let ghost rest = ps.skip(p as int);
        assert(rest[0] == pieces@[p as int]@);
        assert(rest.drop_first() =~= ps.skip(p + 1));
        let piece = pieces[p].as_slice();
        if piece.len() == 0 {
            let empty: Vec<char> = Vec::new();
            push_line(&mut out, empty.as_slice());
        } else {
            let ws = split_words(piece);
            let ghost wv = crate::text::char_views(ws@);
            let ghost out0 = string_views(out@);
            let mut line: Vec<char> = Vec::new();
            let mut k: usize = 0;
            assert(wv.skip(0) =~= wv);
            while k < ws.len()
                invariant
                    k <= ws@.len(),
                    wv == crate::text::char_views(ws@),
                    wrap_words(wv, Seq::empty(), out0, max_chars as nat) == wrap_words(
                        wv.skip(k as int),
                        line@,
                        string_views(out@),
                        max_chars as nat,
                    ),
                decreases ws@.len() - k,
            {
                let ghost wrest = wv.skip(k as int);
                assert(wrest[0] == ws@[k as int]@);
                assert(wrest.drop_first() =~= wv.skip(k + 1));
                let w = ws[k].as_slice();
                proof {
                    lemma_utf8_len_bound(line@);
                    lemma_utf8_len_bound(w@);
                }
                let ll = line.len();
                let wl = w.len();
                let overflow = utf8_len_exec(line.as_slice()) + utf8_len_exec(w) + 1 > max_chars as u128;
                if overflow {
                    push_line(&mut out, line.as_slice());
                    line = Vec::new();
                }
                if line.len() > 0 {
                    line.push(' ');
                }
                let ghost l2 = line@;
                let mut j: usize = 0;
                while j < w.len()
                    invariant
                        j <= w@.len(),
                        line@ == l2 + w@.take(j as int),
                    decreases w@.len() - j,
                {
                    line.push(w[j]);
                    j = j + 1;
                    assert(w@.take(j as int) =~= w@.take(j - 1).push(w@[j - 1]));
                }
                assert(w@.take(w@.len() as int) =~= w@);
                k = k + 1;
            }
            assert(wv.skip(ws@.len() as int) =~= Seq::<Seq<char>>::empty());
            if line.len() > 0 {
                push_line(&mut out, line.as_slice());
            }
        }
        p = p + 1;
    }
    assert(ps.skip(pieces@.len() as int) =~= Seq::<Seq<char>>::empty());
    out
}

// ---------------------------------------------------------------------
// Text extraction
// ---------------------------------------------------------------------

/// The message when a document parses but lists no page.
pub open spec fn zero_pages_message() -> Seq<char> {
    "PDF parsed but contains zero pages"@
}

/// The message when extraction found no text.
pub open spec fn no_text_message() -> Seq<char> {
    "extraction produced no text (source may be a scanned/image-only PDF requiring OCR, which this adapter does not perform)"@
}

/// What extracting the text of a PDF's bytes gives, for the answers of
/// the PDF parser (`count_pages`: the number of pages, or the parse error)
/// and the text extractor (`extract`: the text, or its error). The
/// extractor is asked only about a document that parsed with pages.
pub open spec fn pdf_text_outcome<
    P: Fn(&[u8]) -> Result<usize, String>,
    X: Fn(&[u8]) -> Result<String, String>,
>(count_pages: &P, extract: &X, bytes: &[u8], r: Result<String, String>) -> bool {
    exists|p: Result<usize, String>|
        #![trigger count_pages.ensures((bytes,), p)]
        count_pages.ensures((bytes,), p) && match p {
            Err(m) => r matches Err(x) && x@ == "input failed PDF structural parse: "@ + m@,
            Ok(n) => if n == 0 {
                r matches Err(x) && x@ == zero_pages_message()
            } else {
                exists|t: Result<String, String>|
                    #![trigger extract.ensures((bytes,), t)]
                    extract.ensures((bytes,), t) && match t {
                        Err(m) => r matches Err(x) && x@ == "text extraction failed: "@ + m@,
                        Ok(s) => if trim(s@).len() == 0 {
                            r matches Err(x) && x@ == no_text_message()
                        } else {
                            r matches Ok(x) && x@ == s@
                        },
                    }
            },
        }
}

/// Extract the text of a PDF file's bytes. The document must parse and
/// list at least one page, extraction must succeed, and the text must not
/// be blank. The parser (`count_pages`) and the extractor (`extract`) are
/// the caller's; each answers with its error message.
pub fn extract_pdf_text<P: Fn(&[u8]) -> Result<usize, String>, X: Fn(&[u8]) -> Result<String, String>>(
    bytes: &[u8],
    count_pages: &P,
    extract: &X,
) -> (r: Result<String, String>)
    requires
        forall|b: &[u8]| count_pages.requires((b,)),
        forall|b: &[u8]| extract.requires((b,)),
    ensures
        pdf_text_outcome(count_pages, extract, bytes, r),
{
    let p = count_pages(bytes);
    let ghost pg = p;
    let pages = match p {
        Ok(n) => n,
        Err(m) => {
            let r = with_detail("input failed PDF structural parse: ", m);
            assert(pdf_text_outcome(count_pages, extract, bytes, Err(r)));
            return Err(r);
        },
    };
    if pages == 0 {
        let r = String::from_str("PDF parsed but contains zero pages");
        assert(pdf_text_outcome(count_pages, extract, bytes, Err(r)));
        return Err(r);
    }
    let t = extract(bytes);
    let ghost tg = t;
    let r = match t {
        Err(m) => Err(with_detail("text extraction failed: ", m)),
        Ok(text) => {
            let chars = chars_of(text.as_str());
            let trimmed = trim_chars(chars.as_slice());
            if trimmed.len() == 0 {
                Err(
                    String::from_str(
                        "extraction produced no text (source may be a scanned/image-only PDF requiring OCR, which this adapter does not perform)",
                    ),
                )
            } else {
                Ok(text)
            }
        },
    };
    assert(pdf_text_outcome(count_pages, extract, bytes, r));
    r
}

/// Check that the bytes of a PDF just written parse again with the
/// caller's parser `count_pages`; the error carries its message.
pub fn check_written_pdf<P: Fn(&[u8]) -> Result<usize, String>>(bytes: &[u8], count_pages: &P) -> (r:
    Result<(), String>)
    requires
        forall|b: &[u8]| count_pages.requires((b,)),
    ensures
        exists|p: Result<usize, String>|
            #![trigger count_pages.ensures((bytes,), p)]
            count_pages.ensures((bytes,), p) && match p {
                Ok(_) => r is Ok,
                Err(m) => r matches Err(x) && x@ == "wrote a PDF that failed to re-parse: "@ + m@,
            },
{
    let p = count_pages(bytes);
    let ghost pg = p;
    match p {
        Ok(_) => Ok(()),
        Err(m) => Err(with_detail("wrote a PDF that failed to re-parse: ", m)),
    }
}

// ---------------------------------------------------------------------
// Laying text out on pages
// ---------------------------------------------------------------------

/// The wrap width of a line of text on a page, in bytes.
pub const WRAP_WIDTH: usize = 95;

/// Lines on one A4 page: 297 mm less two 20 mm margins, at 6 mm a line,
/// holds 42 whole lines.
pub const LINES_PER_PAGE: usize = 42;

/// The lines of page `p` when `lines` are set `per` to a page.
pub open spec fn page_of(lines: Seq<Seq<char>>, per: nat, p: int) -> Seq<Seq<char>> {
    lines.subrange(p * per, if (p + 1) * per <= lines.len() { (p + 1) * per } else { lines.len() as int })
}

/// The number of pages `n` lines take, `per` to a page; text with no
/// line still gets its first page.
pub open spec fn page_count(n: nat, per: nat) -> nat
    recommends
        per > 0,
{
    if n == 0 {
        1
    } else {
        ((n + per - 1) / per as int) as nat
    }
}

/// Lay text out on pages: wrapped at `WRAP_WIDTH` bytes, `LINES_PER_PAGE`
/// lines to a page, in order.
pub fn pdf_pages(content: &str) -> (r: Vec<Vec<String>>)
    ensures
        r@.len() == page_count(wrapped(content@, WRAP_WIDTH as nat).len(), LINES_PER_PAGE as nat),
        forall|p: int|
            0 <= p < r@.len() ==> string_views(#[trigger] r@[p]@) == page_of(
                wrapped(content@, WRAP_WIDTH as nat),
                LINES_PER_PAGE as nat,
                p,
            ),
{
    let lines = wrap_text(content, WRAP_WIDTH);
    let ghost ls = string_views(lines@);
    let mut pages: Vec<Vec<String>> = Vec::new();
    let mut page: Vec<String> = Vec::new();
    let mut i: usize = 0;
    while i < lines.len()
        invariant
            i <= lines@.len(),
            ls == string_views(lines@),
            ls.len() == lines@.len(),
            pages@.len() * 42 + page@.len() == i,
            page@.len() <= 42,
            i > 0 ==> page@.len() > 0,
            string_views(page@) == ls.subrange((pages@.len() * 42) as int, i as int),
            forall|p: int|
                0 <= p < pages@.len() ==> string_views(#[trigger] pages@[p]@) == ls.subrange(
                    p * 42,
                    (p + 1) * 42,
                ),
        decreases lines@.len() - i,
    {
        if page.len() == LINES_PER_PAGE {
            let ghost k = pages@.len();
            pages.push(page);
            page = Vec::new();
            assert(string_views(page@) =~= ls.subrange((pages@.len() * 42) as int, i as int));
        }
        let ghost pv = string_views(page@);
        page.push(lines[i].clone());
        assert(string_views(page@) =~= pv.push(ls[i as int]));
        assert(ls.subrange((pages@.len() * 42) as int, i + 1) =~= ls.subrange((pages@.len() * 42) as int, i as int).push(ls[i as int]));
        i = i + 1;
    }
    let ghost k = pages@.len();
    pages.push(page);
    assert forall|p: int| 0 <= p < pages@.len() implies string_views(#[trigger] pages@[p]@) == page_of(
        ls,
        LINES_PER_PAGE as nat,
        p,
    ) by {
        if p < k {
            assert((p + 1) * 42 <= k * 42) by (nonlinear_arith)
                requires
                    p + 1 <= k,
            ;
        }
    }
    pages
}

// ---------------------------------------------------------------------
// Routes
// ---------------------------------------------------------------------

/// Which of its two conversions the PDF adapter runs.
#[derive(Debug, Clone, Copy, PartialEq, Eq, Structural)]
pub enum PdfDirection {
    /// Extract the text of a PDF.
    ToText,
    /// Lay text out as a PDF.
    ToPdf,
}

/// The message for a route the PDF adapter does not drive.
pub open spec fn unsupported_pdf_route(from: Format, to: Format) -> Seq<char> {
    "unsupported route "@ + format_name(from) + " -> "@ + format_name(to)
}

/// The conversion the PDF adapter runs for `from -> to`.
pub fn pdf_direction(from: Format, to: Format) -> (r: Result<PdfDirection, String>)
    ensures
        from == Format::Pdf && to == Format::PlainText ==> r == Ok::<PdfDirection, String>(
            PdfDirection::ToText,
        ),
        from == Format::PlainText && to == Format::Pdf ==> r == Ok::<PdfDirection, String>(
            PdfDirection::ToPdf,
        ),
        !(from == Format::Pdf && to == Format::PlainText) && !(from == Format::PlainText && to
            == Format::Pdf) ==> (r matches Err(m) && m@ == unsupported_pdf_route(from, to)),
{
    if from == Format::Pdf && to == Format::PlainText {
        Ok(PdfDirection::ToText)
    } else if from == Format::PlainText && to == Format::Pdf {
        Ok(PdfDirection::ToPdf)
    } else {
        let mut m = String::from_str("unsupported route ");
        m.append(from.as_str());
        m.append(" -> ");
        m.append(to.as_str());
        Err(m)
    }
}

} // verus!
