//! Markup and web documents: Markdown -> HTML, Markdown -> plain text,
//! HTML -> Markdown, HTML -> plain text.
use vstd::prelude::*;
use pulldown_cmark::{Event, Options, Parser, Tag, TagEnd};
use crate::format::{Format, format_name};
use crate::registry::{ConversionAdapter, Route};
use crate::text::{
    chars_equal_str, chars_of, chars_start_with, chars_to_string, ends_with, is_white_space,
    replace_all, replace_str, starts_with, to_lowercase, trim, trim_chars, unicode_lowercase,
    text_lowercase, digit_char, is_ascii_text, ascii_lowercase,
    white_space, push_str_chars, lemma_trim_start_skips, lemma_trim_end_takes, trim_start, trim_end,
};

verus! {

pub struct MarkupAdapter;

pub open spec fn markup_routes() -> Seq<Route> {
    seq![
        (Format::Markdown, Format::Html),
        (Format::Markdown, Format::PlainText),
        (Format::Html, Format::Markdown),
        (Format::Html, Format::PlainText)
    ]
}

impl ConversionAdapter for MarkupAdapter {
    open spec fn spec_name(&self) -> Seq<char> {
        "markup-adapter"@
    }

    open spec fn spec_routes(&self) -> Seq<Route> {
        markup_routes()
    }

    fn name(&self) -> (r: &'static str) {
        "markup-adapter"
    }

    fn supported_routes(&self) -> (r: Vec<Route>) {
        let r = vec![
            (Format::Markdown, Format::Html),
            (Format::Markdown, Format::PlainText),
            (Format::Html, Format::Markdown),
            (Format::Html, Format::PlainText)
        ];
        assert(r@ =~= markup_routes());
        r
    }
}

// ---------------------------------------------------------------------
// HTML entities
// ---------------------------------------------------------------------

/// The seven entities decoded, applied in this order (so `&amp;lt;`
/// becomes `<`).
pub open spec fn decode_entities(s: Seq<char>) -> Seq<char> {
    let s1 = replace_all(s, "&amp;"@, "&"@);
    let s2 = replace_all(s1, "&lt;"@, "<"@);
    let s3 = replace_all(s2, "&gt;"@, ">"@);
    let s4 = replace_all(s3, "&quot;"@, "\""@);
    let s5 = replace_all(s4, "&#39;"@, "'"@);
    let s6 = replace_all(s5, "&apos;"@, "'"@);
    replace_all(s6, "&nbsp;"@, " "@)
}

pub fn decode_html_entities(s: &[char]) -> (r: Vec<char>)
    ensures
        r@ == decode_entities(s@),
{
    let s1 = replace_str(s, "&amp;", "&");
    let s2 = replace_str(s1.as_slice(), "&lt;", "<");
    let s3 = replace_str(s2.as_slice(), "&gt;", ">");
    let s4 = replace_str(s3.as_slice(), "&quot;", "\"");
    let s5 = replace_str(s4.as_slice(), "&#39;", "'");
    let s6 = replace_str(s5.as_slice(), "&apos;", "'");
    replace_str(s6.as_slice(), "&nbsp;", " ")
}

// ---------------------------------------------------------------------
// HTML -> plain text
// ---------------------------------------------------------------------

/// Length of the tag name that starts `t`: characters up to the first
/// `>` or whitespace.
pub open spec fn tag_name_len(t: Seq<char>) -> nat
    decreases t.len(),
{
    if t.len() > 0 && t[0] != '>' && !is_white_space(t[0]) {
        1 + tag_name_len(t.drop_first())
    } else {
        0
    }
}

pub proof fn lemma_tag_name_len_bound(t: Seq<char>)
    ensures
        tag_name_len(t) <= t.len(),
    decreases t.len(),
{
    if t.len() > 0 && t[0] != '>' && !is_white_space(t[0]) {
        lemma_tag_name_len_bound(t.drop_first());
    }
}

/// Effect of a tag (lowercased name) on the script/style flag and the
/// text: `script`/`style` hide content until their closing tag; block
/// tags (`p`, `/p`, `br`, `li`, and any name starting with `h`) end the
/// current line.
pub open spec fn plain_tag_effect(in_script: bool, out: Seq<char>, name: Seq<char>) -> (bool, Seq<char>) {
    if name == "script"@ || name == "style"@ {
        (true, out)
    } else if name == "/script"@ || name == "/style"@ {
        (false, out)
    } else if name == "p"@ || name == "/p"@ || name == "br"@ || starts_with(name, "h"@) || name
        == "li"@ {
        (in_script, if ends_with(out, "\n"@) {
            out
        } else {
            out.push('\n')
        })
    } else {
        (in_script, out)
    }
}

/// The text kept from `s`, given the state reached so far: characters
/// outside tags and outside script/style elements.
pub open spec fn plain_run(s: Seq<char>, in_tag: bool, in_script: bool, out: Seq<char>) -> Seq<
    char,
>
    decreases s.len(),
{
    if s.len() == 0 {
        out
    } else if s[0] == '<' {
        proof {
            lemma_tag_name_len_bound(s.drop_first());
        }
        let n = tag_name_len(s.drop_first()) as int;
        let e = plain_tag_effect(in_script, out, text_lowercase(s.subrange(1, 1 + n)));
        plain_run(s.skip(1 + n), true, e.0, e.1)
    } else if s[0] == '>' {
        plain_run(s.drop_first(), false, in_script, out)
    } else {
        plain_run(
            s.drop_first(),
            in_tag,
            in_script,
            if !in_tag && !in_script {
                out.push(s[0])
            } else {
                out
            },
        )
    }
}

/// The plain text of an HTML document: tags and script/style content
/// dropped, block tags turned into line breaks, entities decoded.
pub open spec fn html_plain_text(s: Seq<char>) -> Seq<char> {
    decode_entities(plain_run(s, false, false, Seq::empty()))
}

fn plain_tag_effect_exec(in_script: bool, out: &mut Vec<char>, name: &[char]) -> (r: bool)
    ensures
        (r, final(out)@) == plain_tag_effect(in_script, old(out)@, name@),
{
    if chars_equal_str(name, "script") || chars_equal_str(name, "style") {
        true
    } else if chars_equal_str(name, "/script") || chars_equal_str(name, "/style") {
        false
    } else if chars_equal_str(name, "p") || chars_equal_str(name, "/p") || chars_equal_str(name, "br")
        || crate::text::starts_with_str(name, "h") || chars_equal_str(name, "li") {
        let n = out.len();
        let nl = chars_of("\n");
        let ends = crate::text::chars_end_with(out.as_slice(), nl.as_slice());
        if !ends {
            out.push('\n');
        }
        in_script
    } else {
        in_script
    }
}

pub fn html_to_plain_text(html: &[char]) -> (r: Vec<char>)
    ensures
        r@ == html_plain_text(html@),
{
    let n = html.len();
    let mut out: Vec<char> = Vec::new();
    let mut in_tag = false;
    let mut in_script = false;
    let mut i: usize = 0;
    assert(html@.skip(0) =~= html@);
    while i < n
        invariant
            n == html@.len(),
            i <= n,
            plain_run(html@, false, false, Seq::empty()) == plain_run(
                html@.skip(i as int),
                in_tag,
                in_script,
                out@,
            ),
        decreases n - i,
    {
        let ghost rest = html@.skip(i as int);
        assert(rest[0] == html@[i as int]);
        let c = html[i];
        if c == '<' {
            let mut j: usize = i + 1;
            assert(rest.drop_first() =~= html@.skip(i + 1));
            while j < n && html[j] != '>' && !white_space(html[j])
                invariant
                    i < j <= n == html@.len(),
                    tag_name_len(html@.skip(i + 1)) == (j - (i + 1)) + tag_name_len(
                        html@.skip(j as int),
                    ),
                decreases n - j,
            {
                assert(html@.skip(j as int)[0] == html@[j as int]);
                assert(html@.skip(j as int).drop_first() =~= html@.skip(j + 1));
                j = j + 1;
            }
            proof {
                if j < n {
                    assert(html@.skip(j as int)[0] == html@[j as int]);
                }
                assert(tag_name_len(html@.skip(j as int)) == 0);
            }
            let name = crate::text::sub_chars(html, i + 1, j);
            assert(name@ =~= rest.subrange(1, 1 + (j - i - 1)));
            assert(rest.skip(1 + (j - i - 1)) =~= html@.skip(j as int));
            let lower = to_lowercase(name.as_slice());
            in_script = plain_tag_effect_exec(in_script, &mut out, lower.as_slice());
            in_tag = true;
            i = j;
        } else if c == '>' {
            assert(rest.drop_first() =~= html@.skip(i + 1));
            in_tag = false;
            i = i + 1;
        } else {
            assert(rest.drop_first() =~= html@.skip(i + 1));
            if !in_tag && !in_script {
                out.push(c);
            }
            i = i + 1;
        }
    }
    assert(html@.skip(n as int) =~= Seq::<char>::empty());
    decode_html_entities(out.as_slice())
}

// ---------------------------------------------------------------------
// HTML -> Markdown
// ---------------------------------------------------------------------

/// Start a new paragraph: make sure the text ends with a blank line.
pub open spec fn para_break(out: Seq<char>) -> Seq<char> {
    if ends_with(out, "\n\n"@) {
        out
    } else {
        out + "\n\n"@
    }
}

/// The Markdown a (trimmed, lowercased) tag contributes to the text.
pub open spec fn md_markup(tag: Seq<char>, out: Seq<char>) -> Seq<char> {
    if tag == "h1"@ {
        para_break(out) + "# "@
    } else if tag == "h2"@ {
        para_break(out) + "## "@
    } else if tag == "h3"@ {
        para_break(out) + "### "@
    } else if tag == "h4"@ {
        para_break(out) + "#### "@
    } else if tag == "p"@ || tag == "div"@ {
        para_break(out)
    } else if tag == "/p"@ || tag == "/h1"@ || tag == "/h2"@ || tag == "/h3"@ || tag == "/h4"@ {
        out.push('\n')
    } else if tag == "br"@ {
        out.push('\n')
    } else if tag == "b"@ || tag == "strong"@ || tag == "/b"@ || tag == "/strong"@ {
        out + "**"@
    } else if tag == "i"@ || tag == "em"@ || tag == "/i"@ || tag == "/em"@ {
        out.push('*')
    } else if tag == "code"@ || tag == "/code"@ {
        out.push('`')
    } else if tag == "pre"@ || tag == "/pre"@ {
        out + "\n```\n"@
    } else if tag == "li"@ {
        out + "\n- "@
    } else if tag == "hr"@ {
        out + "\n\n---\n\n"@
    } else {
        out
    }
}

/// Effect of a complete tag: `script`, `style` and `head` hide their
/// content up to the matching closing tag; other tags outside hidden
/// content become Markdown markup.
pub open spec fn md_tag_effect(tag: Seq<char>, in_script: bool, out: Seq<char>) -> (bool, Seq<char>) {
    if tag == "script"@ || tag == "style"@ || tag == "head"@ {
        (true, out)
    } else if tag == "/script"@ || tag == "/style"@ || tag == "/head"@ {
        (false, out)
    } else if !in_script {
        (in_script, md_markup(tag, out))
    } else {
        (in_script, out)
    }
}

/// The Markdown produced from `s`, given the state reached so far: inside
/// a tag its text is collected, and at `>` the trimmed, lowercased tag
/// takes effect.
pub open spec fn md_run(
    s: Seq<char>,
    in_tag: bool,
    in_script: bool,
    tag: Seq<char>,
    out: Seq<char>,
) -> Seq<char>
    decreases s.len(),
{
    if s.len() == 0 {
        out
    } else if s[0] == '<' {
        md_run(s.drop_first(), true, in_script, Seq::empty(), out)
    } else if s[0] == '>' && in_tag {
        let e = md_tag_effect(text_lowercase(trim(tag)), in_script, out);
        md_run(s.drop_first(), false, e.0, tag, e.1)
    } else if in_tag {
        md_run(s.drop_first(), in_tag, in_script, tag.push(s[0]), out)
    } else if !in_script {
        md_run(s.drop_first(), in_tag, in_script, tag, out.push(s[0]))
    } else {
        md_run(s.drop_first(), in_tag, in_script, tag, out)
    }
}

/// `s` with every run of newlines cut to at most two, given that `run`
/// newlines precede it.
pub open spec fn cap_newlines_from(s: Seq<char>, run: nat) -> Seq<char>
    decreases s.len(),
{
    if s.len() == 0 {
        s
    } else if s[0] == '\n' {
        if run + 1 <= 2 {
            seq!['\n'] + cap_newlines_from(s.drop_first(), run + 1)
        } else {
            cap_newlines_from(s.drop_first(), run + 1)
        }
    } else {
        seq![s[0]] + cap_newlines_from(s.drop_first(), 0)
    }
}

/// Whether `t` holds no run of three newlines (no more than one blank
/// line in a row).
pub open spec fn no_triple_newline(t: Seq<char>) -> bool {
    forall|i: int|
        0 <= i && i + 2 < t.len() ==> !(#[trigger] t[i] == '\n' && t[i + 1] == '\n' && t[i + 2] == '\n')
}

proof fn lemma_cap_newlines(s: Seq<char>, run: nat)
    ensures
        no_triple_newline(cap_newlines_from(s, run)),
        run >= 2 ==> !(cap_newlines_from(s, run).len() > 0 && cap_newlines_from(s, run)[0] == '\n'),
        run == 1 ==> !(cap_newlines_from(s, run).len() > 1 && cap_newlines_from(s, run)[0] == '\n'
            && cap_newlines_from(s, run)[1] == '\n'),
    decreases s.len(),
{
    if s.len() > 0 {
        let rest = s.drop_first();
        if s[0] == '\n' {
            lemma_cap_newlines(rest, run + 1);
            if run + 1 <= 2 {
                let tail = cap_newlines_from(rest, run + 1);
                let r = seq!['\n'] + tail;
                assert(cap_newlines_from(s, run) == r);
                assert forall|i: int| 0 <= i && i + 2 < r.len() implies !(#[trigger] r[i] == '\n' && r[i
                    + 1] == '\n' && r[i + 2] == '\n') by {
                    if i > 0 {
                        assert(r[i] == tail[i - 1] && r[i + 1] == tail[i] && r[i + 2] == tail[i + 1]);
                    } else {
                        assert(r[1] == tail[0] && r[2] == tail[1]);
                    }
                }
                if run == 1 && r.len() > 1 {
                    assert(r[1] == tail[0]);
                }
            }
        } else {
            lemma_cap_newlines(rest, 0);
            let tail = cap_newlines_from(rest, 0);
            let r = seq![s[0]] + tail;
            assert(cap_newlines_from(s, run) == r);
            assert forall|i: int| 0 <= i && i + 2 < r.len() implies !(#[trigger] r[i] == '\n' && r[i + 1]
                == '\n' && r[i + 2] == '\n') by {
                if i > 0 {
                    assert(r[i] == tail[i - 1] && r[i + 1] == tail[i] && r[i + 2] == tail[i + 1]);
                }
            }
        }
    }
}

/// The Markdown written for any HTML holds at most one blank line in a
/// row and ends in exactly one newline, after text that is not white
/// space.
pub proof fn lemma_markdown_blank_lines_collapsed(html: Seq<char>)
    ensures
        no_triple_newline(html_markdown(html)),
        html_markdown(html).last() == '\n',
        html_markdown(html).len() >= 2 ==> !is_white_space(
            html_markdown(html)[html_markdown(html).len() - 2],
        ),
{
    reveal_strlit("\n");
    let c = cap_newlines_from(decode_entities(md_run(html, false, false, Seq::empty(), Seq::empty())), 0);
    lemma_cap_newlines(decode_entities(md_run(html, false, false, Seq::empty(), Seq::empty())), 0);
    lemma_trim_start_skips(c);
    let ts = trim_start(c);
    let k1 = choose|k: int| 0 <= k <= c.len() && ts == c.skip(k);
    assert forall|i: int| 0 <= i && i + 2 < ts.len() implies !(#[trigger] ts[i] == '\n' && ts[i + 1]
        == '\n' && ts[i + 2] == '\n') by {
        assert(ts[i] == c[i + k1] && ts[i + 1] == c[i + k1 + 1] && ts[i + 2] == c[i + k1 + 2]);
    }
    lemma_trim_end_takes(ts);
    let t = trim_end(ts);
    let k2 = choose|k: int| 0 <= k <= ts.len() && t == ts.take(k);
    let r = html_markdown(html);
    assert(t == trim(c));
    assert(r == t + "\n"@);
    assert(r.last() == '\n');
    assert forall|i: int| 0 <= i && i + 2 < r.len() implies !(#[trigger] r[i] == '\n' && r[i + 1] == '\n'
        && r[i + 2] == '\n') by {
        if i + 2 < t.len() {
            assert(r[i] == ts[i] && r[i + 1] == ts[i + 1] && r[i + 2] == ts[i + 2]);
        } else {
            assert(r[i + 1] == t.last());
            assert(is_white_space('\n'));
        }
    }
    if r.len() >= 2 {
        assert(r[r.len() - 2] == t.last());
    }
}

/// The Markdown of an HTML document: headings, paragraphs, emphasis,
/// code, lists and rules turned into Markdown, other tags and script,
/// style and head content dropped, entities decoded, blank-line runs
/// collapsed, surrounding whitespace trimmed and one final newline added.
pub open spec fn html_markdown(s: Seq<char>) -> Seq<char> {
    trim(
        cap_newlines_from(
            decode_entities(md_run(s, false, false, Seq::empty(), Seq::empty())),
            0,
        ),
    ) + "\n"@
}

fn para_break_exec(out: &mut Vec<char>)
    ensures
        final(out)@ == para_break(old(out)@),
{
    let nn = chars_of("\n\n");
    if !crate::text::chars_end_with(out.as_slice(), nn.as_slice()) {
        push_str_chars(out, "\n\n");
    }
}

fn md_markup_exec(tag: &[char], out: &mut Vec<char>)
    ensures
        final(out)@ == md_markup(tag@, old(out)@),
{
    if chars_equal_str(tag, "h1") {
        para_break_exec(out);
        push_str_chars(out, "# ");
    } else if chars_equal_str(tag, "h2") {
        para_break_exec(out);
        push_str_chars(out, "## ");
    } else if chars_equal_str(tag, "h3") {
        para_break_exec(out);
        push_str_chars(out, "### ");
    } else if chars_equal_str(tag, "h4") {
        para_break_exec(out);
        push_str_chars(out, "#### ");
    } else if chars_equal_str(tag, "p") || chars_equal_str(tag, "div") {
        para_break_exec(out);
    } else if chars_equal_str(tag, "/p") || chars_equal_str(tag, "/h1") || chars_equal_str(tag, "/h2")
        || chars_equal_str(tag, "/h3") || chars_equal_str(tag, "/h4") {
        out.push('\n');
    } else if chars_equal_str(tag, "br") {
        out.push('\n');
    } else if chars_equal_str(tag, "b") || chars_equal_str(tag, "strong") || chars_equal_str(tag, "/b")
        || chars_equal_str(tag, "/strong") {
        push_str_chars(out, "**");
    } else if chars_equal_str(tag, "i") || chars_equal_str(tag, "em") || chars_equal_str(tag, "/i")
        || chars_equal_str(tag, "/em") {
        out.push('*');
    } else if chars_equal_str(tag, "code") || chars_equal_str(tag, "/code") {
        out.push('`');
    } else if chars_equal_str(tag, "pre") || chars_equal_str(tag, "/pre") {
        push_str_chars(out, "\n```\n");
    } else if chars_equal_str(tag, "li") {
        push_str_chars(out, "\n- ");
    } else if chars_equal_str(tag, "hr") {
        push_str_chars(out, "\n\n---\n\n");
    }
}

fn md_tag_effect_exec(tag: &[char], in_script: bool, out: &mut Vec<char>) -> (r: bool)
    ensures
        (r, final(out)@) == md_tag_effect(tag@, in_script, old(out)@),
{
    if chars_equal_str(tag, "script") || chars_equal_str(tag, "style") || chars_equal_str(tag, "head") {
        true
    } else if chars_equal_str(tag, "/script") || chars_equal_str(tag, "/style") || chars_equal_str(
        tag,
        "/head",
    ) {
        false
    } else if !in_script {
        md_markup_exec(tag, out);
        in_script
    } else {
        in_script
    }
}

fn cap_newlines(s: &[char]) -> (r: Vec<char>)
    ensures
        r@ == cap_newlines_from(s@, 0),
{
    let n = s.len();
    let mut out: Vec<char> = Vec::new();
    let mut run: usize = 0;
    let mut i: usize = 0;
    assert(s@.skip(0) =~= s@);
    while i < n
        invariant
            n == s@.len(),
            i <= n,
            run <= i,
            cap_newlines_from(s@, 0) == out@ + cap_newlines_from(s@.skip(i as int), run as nat),
        decreases n - i,
    {
        let ghost rest = s@.skip(i as int);
        let ghost before = out@;
        assert(rest[0] == s@[i as int]);
        assert(rest.drop_first() =~= s@.skip(i + 1));
        if s[i] == '\n' {
            run = run + 1;
            if run <= 2 {
                out.push('\n');
                assert(before + (seq!['\n'] + cap_newlines_from(s@.skip(i + 1), run as nat)) =~= out@
                    + cap_newlines_from(s@.skip(i + 1), run as nat));
            }
        } else {
            run = 0;
            out.push(s[i]);
            assert(before + (seq![s@[i as int]] + cap_newlines_from(s@.skip(i + 1), 0)) =~= out@
                + cap_newlines_from(s@.skip(i + 1), 0));
        }
        i = i + 1;
    }
    assert(s@.skip(n as int) =~= Seq::<char>::empty());
    assert(out@ + Seq::<char>::empty() =~= out@);
    out
}

pub fn html_to_markdown(html: &[char]) -> (r: Vec<char>)
    ensures
        r@ == html_markdown(html@),
{
    let n = html.len();
    let mut out: Vec<char> = Vec::new();
    let mut tag: Vec<char> = Vec::new();
    let mut in_tag = false;
    let mut in_script = false;
    let mut i: usize = 0;
    assert(html@.skip(0) =~= html@);
    while i < n
        invariant
            n == html@.len(),
            i <= n,
            md_run(html@, false, false, Seq::empty(), Seq::empty()) == md_run(
                html@.skip(i as int),
                in_tag,
                in_script,
                tag@,
                out@,
            ),
        decreases n - i,
    {
        let ghost rest = html@.skip(i as int);
        assert(rest[0] == html@[i as int]);
        assert(rest.drop_first() =~= html@.skip(i + 1));
        let c = html[i];
        if c == '<' {
            in_tag = true;
            tag = Vec::new();
        } else if c == '>' && in_tag {
            in_tag = false;
            let t = trim_chars(tag.as_slice());
            let lower = to_lowercase(t.as_slice());
            in_script = md_tag_effect_exec(lower.as_slice(), in_script, &mut out);
        } else if in_tag {
            tag.push(c);
        } else if !in_script {
            out.push(c);
        }
        i = i + 1;
    }
    assert(html@.skip(n as int) =~= Seq::<char>::empty());
    let decoded = decode_html_entities(out.as_slice());
    let cleaned = cap_newlines(decoded.as_slice());
    let mut result = trim_chars(cleaned.as_slice());
    result.push('\n');
    proof {
        reveal_strlit("\n");
    }
    assert(result@ =~= html_markdown(html@));
    result
}

// ---------------------------------------------------------------------
// Headings: what HTML headings become
// ---------------------------------------------------------------------

/// `n` `#` characters.
pub open spec fn hashes(n: nat) -> Seq<char> {
    Seq::new(n, |i: int| '#')
}

/// The opening tag `<hN>`.
pub open spec fn heading_open(n: nat) -> Seq<char> {
    seq!['<', 'h', digit_char(n), '>']
}

/// The closing tag `</hN>`.
pub open spec fn heading_close(n: nat) -> Seq<char> {
    seq!['<', '/', 'h', digit_char(n), '>']
}

/// Text the converter passes through as it is: no tag, no entity, no
/// line break.
pub open spec fn inert_text(t: Seq<char>) -> bool {
    forall|i: int| 0 <= i < t.len() ==> #[trigger] t[i] != '<' && t[i] != '&' && t[i] != '\n'
}

proof fn lemma_md_text(t: Seq<char>, rest: Seq<char>, tag: Seq<char>, out: Seq<char>)
    requires
        forall|i: int| 0 <= i < t.len() ==> #[trigger] t[i] != '<',
    ensures
        md_run(t + rest, false, false, tag, out) == md_run(rest, false, false, tag, out + t),
    decreases t.len(),
{
    if t.len() > 0 {
        assert((t + rest)[0] == t[0]);
        assert((t + rest).drop_first() =~= t.drop_first() + rest);
        assert forall|i: int| 0 <= i < t.drop_first().len() implies #[trigger] t.drop_first()[i] != '<' by {
            assert(t.drop_first()[i] == t[i + 1]);
        }
        lemma_md_text(t.drop_first(), rest, tag, out.push(t[0]));
        assert(out.push(t[0]) + t.drop_first() =~= out + t);
    } else {
        assert(t + rest =~= rest);
        assert(out + t =~= out);
    }
}

proof fn lemma_md_tag_name(name: Seq<char>, rest: Seq<char>, in_script: bool, acc: Seq<char>, out: Seq<char>)
    requires
        forall|i: int| 0 <= i < name.len() ==> #[trigger] name[i] != '<' && name[i] != '>',
    ensures
        md_run(name + rest, true, in_script, acc, out) == md_run(rest, true, in_script, acc + name, out),
    decreases name.len(),
{
    if name.len() > 0 {
        assert((name + rest)[0] == name[0]);
        assert((name + rest).drop_first() =~= name.drop_first() + rest);
        assert forall|i: int| 0 <= i < name.drop_first().len() implies #[trigger] name.drop_first()[i]
            != '<' && name.drop_first()[i] != '>' by {
            assert(name.drop_first()[i] == name[i + 1]);
        }
        lemma_md_tag_name(name.drop_first(), rest, in_script, acc.push(name[0]), out);
        assert(acc.push(name[0]) + name.drop_first() =~= acc + name);
    } else {
        assert(name + rest =~= rest);
        assert(acc + name =~= acc);
    }
}

proof fn lemma_md_tag(name: Seq<char>, rest: Seq<char>, in_script: bool, tag: Seq<char>, out: Seq<char>)
    requires
        forall|i: int| 0 <= i < name.len() ==> #[trigger] name[i] != '<' && name[i] != '>',
    ensures
        md_run(seq!['<'] + name + seq!['>'] + rest, false, in_script, tag, out) == md_run(
            rest,
            false,
            md_tag_effect(text_lowercase(trim(name)), in_script, out).0,
            name,
            md_tag_effect(text_lowercase(trim(name)), in_script, out).1,
        ),
{
    let s = seq!['<'] + name + seq!['>'] + rest;
    assert(s[0] == '<');
    assert(s.drop_first() =~= name + (seq!['>'] + rest));
    lemma_md_tag_name(name, seq!['>'] + rest, in_script, Seq::empty(), out);
    assert(Seq::<char>::empty() + name =~= name);
    assert((seq!['>'] + rest)[0] == '>');
    assert((seq!['>'] + rest).drop_first() =~= rest);
}

proof fn lemma_replace_absent(s: Seq<char>, p: Seq<char>, q: Seq<char>)
    requires
        p.len() > 0,
        forall|i: int| 0 <= i < s.len() ==> #[trigger] s[i] != p[0],
    ensures
        replace_all(s, p, q) == s,
    decreases s.len(),
{
    if s.len() > 0 {
        if starts_with(s, p) {
            assert(s.subrange(0, p.len() as int)[0] == s[0]);
        }
        assert forall|i: int| 0 <= i < s.drop_first().len() implies #[trigger] s.drop_first()[i] != p[0] by {
            assert(s.drop_first()[i] == s[i + 1]);
        }
        lemma_replace_absent(s.drop_first(), p, q);
        assert(seq![s[0]] + s.drop_first() =~= s);
    }
}

proof fn lemma_no_entities(s: Seq<char>)
    requires
        forall|i: int| 0 <= i < s.len() ==> #[trigger] s[i] != '&',
    ensures
        decode_entities(s) == s,
{
    reveal_strlit("&amp;");
    reveal_strlit("&lt;");
    reveal_strlit("&gt;");
    reveal_strlit("&quot;");
    reveal_strlit("&#39;");
    reveal_strlit("&apos;");
    reveal_strlit("&nbsp;");
    lemma_replace_absent(s, "&amp;"@, "&"@);
    lemma_replace_absent(s, "&lt;"@, "<"@);
    lemma_replace_absent(s, "&gt;"@, ">"@);
    lemma_replace_absent(s, "&quot;"@, "\""@);
    lemma_replace_absent(s, "&#39;"@, "'"@);
    lemma_replace_absent(s, "&apos;"@, "'"@);
    lemma_replace_absent(s, "&nbsp;"@, " "@);
}

proof fn lemma_cap_text(v: Seq<char>, w: Seq<char>, run: nat)
    requires
        v.len() > 0,
        forall|i: int| 0 <= i < v.len() ==> #[trigger] v[i] != '\n',
    ensures
        cap_newlines_from(v + w, run) == v + cap_newlines_from(w, 0),
    decreases v.len(),
{
    let s = v + w;
    assert(s[0] == v[0]);
    assert(s.drop_first() =~= v.drop_first() + w);
    if v.len() == 1 {
        assert(v.drop_first() + w =~= w);
        assert(seq![v[0]] + cap_newlines_from(w, 0) =~= v + cap_newlines_from(w, 0));
    } else {
        assert forall|i: int| 0 <= i < v.drop_first().len() implies #[trigger] v.drop_first()[i] != '\n' by {
            assert(v.drop_first()[i] == v[i + 1]);
        }
        lemma_cap_text(v.drop_first(), w, 0);
        assert(seq![v[0]] + (v.drop_first() + cap_newlines_from(w, 0)) =~= v + cap_newlines_from(w, 0));
    }
}

/// An HTML heading `<hN>t</hN>` (N from 1 to 4) around text `t` that
/// holds no tag, entity or line break and does not end in white space
/// becomes the Markdown line of exactly N `#`, a space and `t`.
pub proof fn lemma_heading_markdown(n: nat, t: Seq<char>)
    requires
        1 <= n <= 4,
        t.len() > 0,
        inert_text(t),
        !is_white_space(t.last()),
    ensures
        html_markdown(heading_open(n) + t + heading_close(n)) == hashes(n) + " "@ + t + "\n"@,
{
    reveal_strlit(" ");
    reveal_strlit("\n");
    reveal_strlit("\n\n");
    reveal_strlit("h1");
    reveal_strlit("h2");
    reveal_strlit("h3");
    reveal_strlit("h4");
    reveal_strlit("# ");
    reveal_strlit("## ");
    reveal_strlit("### ");
    reveal_strlit("#### ");
    reveal_strlit("script");
    reveal_strlit("style");
    reveal_strlit("head");
    reveal_strlit("/script");
    reveal_strlit("/style");
    reveal_strlit("/head");
    reveal_strlit("p");
    reveal_strlit("div");
    reveal_strlit("/p");
    reveal_strlit("/h1");
    reveal_strlit("/h2");
    reveal_strlit("/h3");
    reveal_strlit("/h4");
    let d = digit_char(n);
    let open_name = seq!['h', d];
    let close_name = seq!['/', 'h', d];
    let h = hashes(n) + " "@;
    let b = h + t;
    // The opening tag.
    assert(heading_open(n) + t + heading_close(n) =~= seq!['<'] + open_name + seq!['>'] + (t
        + heading_close(n)));
    lemma_md_tag(open_name, t + heading_close(n), false, Seq::empty(), Seq::empty());
    assert(trim_start(open_name) == open_name);
    assert(trim_end(open_name) == open_name);
    assert(is_ascii_text(open_name));
    assert(text_lowercase(trim(open_name)) =~= open_name);
    assert(!ends_with(Seq::<char>::empty(), "\n\n"@));
    let m = "\n\n"@ + h;
    if n == 1 {
        assert(open_name =~= "h1"@);
        assert(h =~= "# "@);
    } else if n == 2 {
        assert(open_name =~= "h2"@);
        assert(open_name != "h1"@);
        assert(h =~= "## "@);
    } else if n == 3 {
        assert(open_name =~= "h3"@);
        assert(open_name != "h1"@ && open_name != "h2"@);
        assert(h =~= "### "@);
    } else {
        assert(open_name =~= "h4"@);
        assert(open_name != "h1"@ && open_name != "h2"@ && open_name != "h3"@);
        assert(h =~= "#### "@);
    }
    assert(open_name != "script"@ && open_name != "style"@ && open_name != "head"@);
    assert(open_name != "/script"@ && open_name != "/style"@ && open_name != "/head"@);
    assert(md_tag_effect(text_lowercase(trim(open_name)), false, Seq::empty()) == (false, m));
    // The text.
    lemma_md_text(t, heading_close(n), open_name, m);
    // The closing tag.
    assert(heading_close(n) =~= seq!['<'] + close_name + seq!['>'] + Seq::<char>::empty());
    lemma_md_tag(close_name, Seq::empty(), false, open_name, m + t);
    assert(trim_start(close_name) == close_name);
    assert(trim_end(close_name) == close_name);
    assert(is_ascii_text(close_name));
    assert(text_lowercase(trim(close_name)) =~= close_name);
    assert(close_name != "script"@ && close_name != "style"@ && close_name != "head"@);
    assert(close_name != "/script"@ && close_name != "/style"@ && close_name != "/head"@);
    assert(close_name != "h1"@ && close_name != "h2"@ && close_name != "h3"@ && close_name != "h4"@);
    assert(close_name != "p"@ && close_name != "div"@ && close_name != "/p"@);
    if n == 1 {
        assert(close_name =~= "/h1"@);
    } else if n == 2 {
        assert(close_name =~= "/h2"@);
    } else if n == 3 {
        assert(close_name =~= "/h3"@);
    } else {
        assert(close_name =~= "/h4"@);
    }
    let raw = (m + t).push('\n');
    assert(md_run(heading_open(n) + t + heading_close(n), false, false, Seq::empty(), Seq::empty())
        == raw);
    // Entities, blank lines, trimming.
    assert(raw =~= seq!['\n', '\n'] + (b + seq!['\n']));
    assert forall|i: int| 0 <= i < raw.len() implies #[trigger] raw[i] != '&' by {
        if i >= 2 + h.len() && i < 2 + h.len() + t.len() {
            assert(raw[i] == t[i - 2 - h.len()]);
        }
    }
    lemma_no_entities(raw);
    assert forall|i: int| 0 <= i < b.len() implies #[trigger] b[i] != '\n' by {
        if i >= h.len() {
            assert(b[i] == t[i - h.len()]);
        }
    }
    lemma_cap_text(b, seq!['\n'], 2);
    let nl = seq!['\n'];
    assert(nl.drop_first() =~= Seq::<char>::empty());
    assert(nl[0] == '\n');
    assert(cap_newlines_from(Seq::<char>::empty(), 1) == Seq::<char>::empty());
    assert(cap_newlines_from(nl, 0) == seq!['\n'] + cap_newlines_from(nl.drop_first(), 1));
    assert(seq!['\n'] + Seq::<char>::empty() =~= nl);
    assert(cap_newlines_from(nl, 0) == nl);
    let r1 = raw.drop_first();
    assert(r1 =~= seq!['\n'] + (b + nl));
    assert(r1[0] == '\n');
    assert(r1.drop_first() =~= b + nl);
    assert(cap_newlines_from(r1, 1) == seq!['\n'] + cap_newlines_from(b + nl, 2));
    assert(raw[0] == '\n');
    assert(cap_newlines_from(raw, 0) == seq!['\n'] + cap_newlines_from(r1, 1));
    assert(seq!['\n'] + (seq!['\n'] + (b + nl)) =~= raw);
    assert(cap_newlines_from(raw, 0) == raw);
    assert(is_white_space('\n'));
    assert(!is_white_space('#'));
    assert(b[0] == '#');
    assert((b + seq!['\n'])[0] == '#');
    let bn = b + nl;
    assert(trim_start(bn) == bn);
    assert(trim_start(r1) == trim_start(r1.drop_first()));
    assert(trim_start(raw) == trim_start(r1));
    assert(trim_start(raw) == bn);
    assert(bn.last() == '\n');
    assert(bn.drop_last() =~= b);
    assert(b.last() == t.last());
    assert(b.len() > 0);
    assert(trim_end(b) == b);
    assert(trim_end(bn) == trim_end(bn.drop_last()));
    assert(trim_end(bn) == b);
    assert(b + "\n"@ =~= hashes(n) + " "@ + t + "\n"@);
}

/// The Markdown emphasis mark of an inline tag: `**` for bold, `*` for
/// italics, a backquote for code.
pub open spec fn inline_mark(name: Seq<char>) -> Option<Seq<char>> {
    if name == "b"@ || name == "strong"@ {
        Some("**"@)
    } else if name == "i"@ || name == "em"@ {
        Some("*"@)
    } else if name == "code"@ {
        Some("`"@)
    } else {
        None
    }
}

/// An inline element `<b>`, `<strong>`, `<i>`, `<em>` or `<code>` around
/// text with no tag, entity or line break becomes that text between the
/// element's Markdown marks.
pub proof fn lemma_inline_markdown(name: Seq<char>, t: Seq<char>)
    requires
        inline_mark(name) is Some,
        inert_text(t),
    ensures
        html_markdown(seq!['<'] + name + seq!['>'] + t + seq!['<', '/'] + name + seq!['>'])
            == inline_mark(name)->0 + t + inline_mark(name)->0 + "\n"@,
{
    reveal_strlit("\n");
    reveal_strlit("b");
    reveal_strlit("strong");
    reveal_strlit("i");
    reveal_strlit("em");
    reveal_strlit("code");
    reveal_strlit("**");
    reveal_strlit("*");
    reveal_strlit("`");
    reveal_strlit("h1");
    reveal_strlit("h2");
    reveal_strlit("h3");
    reveal_strlit("h4");
    reveal_strlit("script");
    reveal_strlit("style");
    reveal_strlit("head");
    reveal_strlit("/script");
    reveal_strlit("/style");
    reveal_strlit("/head");
    reveal_strlit("p");
    reveal_strlit("div");
    reveal_strlit("/p");
    reveal_strlit("/h1");
    reveal_strlit("/h2");
    reveal_strlit("/h3");
    reveal_strlit("/h4");
    reveal_strlit("br");
    reveal_strlit("/b");
    reveal_strlit("/strong");
    reveal_strlit("/i");
    reveal_strlit("/em");
    reveal_strlit("/code");
    let mark = inline_mark(name)->0;
    let close = seq!['/'] + name;
    assert forall|i: int| 0 <= i < name.len() implies #[trigger] name[i] != '<' && name[i] != '>' by {}
    assert forall|i: int| 0 <= i < close.len() implies #[trigger] close[i] != '<' && close[i] != '>' by {
        if i > 0 {
            assert(close[i] == name[i - 1]);
        }
    }
    let src = seq!['<'] + name + seq!['>'] + t + seq!['<', '/'] + name + seq!['>'];
    assert(src =~= seq!['<'] + name + seq!['>'] + (t + (seq!['<'] + close + seq!['>'] + Seq::<
        char,
    >::empty())));
    lemma_md_tag(name, t + (seq!['<'] + close + seq!['>'] + Seq::<char>::empty()), false, Seq::empty(), Seq::empty());
    assert(trim_start(name) == name);
    assert(trim_end(name) == name);
    assert(is_ascii_text(name));
    assert(ascii_lowercase(name) =~= name);
    assert(text_lowercase(trim(name)) == name);
    assert(md_tag_effect(name, false, Seq::empty()) == (false, mark)) by {
        assert(Seq::<char>::empty() + "**"@ =~= "**"@);
        assert(Seq::<char>::empty().push('*') =~= "*"@);
        assert(Seq::<char>::empty().push('`') =~= "`"@);
    }
    lemma_md_text(t, seq!['<'] + close + seq!['>'] + Seq::<char>::empty(), name, mark);
    lemma_md_tag(close, Seq::empty(), false, name, mark + t);
    assert(trim_start(close) == close);
    assert(trim_end(close) == close);
    assert(is_ascii_text(close));
    assert(ascii_lowercase(close) =~= close);
    assert(text_lowercase(trim(close)) == close);
    let raw = mark + t + mark;
    assert(md_tag_effect(close, false, mark + t) == (false, raw)) by {
        if name == "b"@ {
            assert(close =~= "/b"@);
            assert((mark + t) + "**"@ =~= raw);
        } else if name == "strong"@ {
            assert(close =~= "/strong"@);
            assert((mark + t) + "**"@ =~= raw);
        } else if name == "i"@ {
            assert(close =~= "/i"@);
            assert((mark + t).push('*') =~= raw);
        } else if name == "em"@ {
            assert(close =~= "/em"@);
            assert((mark + t).push('*') =~= raw);
        } else {
            assert(close =~= "/code"@);
            assert((mark + t).push('`') =~= raw);
        }
    }
    assert(md_run(src, false, false, Seq::empty(), Seq::empty()) == raw);
    assert forall|i: int| 0 <= i < raw.len() implies #[trigger] raw[i] != '&' && raw[i] != '\n' by {
        if i >= mark.len() && i < mark.len() + t.len() {
            assert(raw[i] == t[i - mark.len()]);
        }
    }
    lemma_no_entities(raw);
    lemma_cap_text(raw, Seq::empty(), 0);
    assert(raw + Seq::<char>::empty() =~= raw);
    assert(cap_newlines_from(Seq::<char>::empty(), 0) == Seq::<char>::empty());
    assert(raw[0] == mark[0]);
    assert(raw.last() == mark.last());
    assert(!is_white_space(mark[0]));
    assert(!is_white_space(mark.last()));
    assert(trim_start(raw) == raw);
    assert(trim_end(raw) == raw);
}

proof fn lemma_plain_text_run(t: Seq<char>, rest: Seq<char>, in_script: bool, out: Seq<char>)
    requires
        forall|i: int| 0 <= i < t.len() ==> #[trigger] t[i] != '<' && t[i] != '>',
    ensures
        plain_run(t + rest, false, in_script, out) == plain_run(
            rest,
            false,
            in_script,
            if in_script {
                out
            } else {
                out + t
            },
        ),
    decreases t.len(),
{
    if t.len() > 0 {
        assert((t + rest)[0] == t[0]);
        assert((t + rest).drop_first() =~= t.drop_first() + rest);
        assert forall|i: int| 0 <= i < t.drop_first().len() implies #[trigger] t.drop_first()[i] != '<'
            && t.drop_first()[i] != '>' by {
            assert(t.drop_first()[i] == t[i + 1]);
        }
        let o1 = if in_script {
            out
        } else {
            out.push(t[0])
        };
        lemma_plain_text_run(t.drop_first(), rest, in_script, o1);
        assert(out.push(t[0]) + t.drop_first() =~= out + t);
    } else {
        assert(t + rest =~= rest);
        assert(out + t =~= out);
    }
}

proof fn lemma_tag_name_len_of(name: Seq<char>, rest: Seq<char>)
    requires
        forall|i: int| 0 <= i < name.len() ==> #[trigger] name[i] != '>' && !is_white_space(name[i]),
    ensures
        tag_name_len(name + seq!['>'] + rest) == name.len(),
    decreases name.len(),
{
    let s = name + seq!['>'] + rest;
    if name.len() > 0 {
        assert(s[0] == name[0]);
        assert(s.drop_first() =~= name.drop_first() + seq!['>'] + rest);
        assert forall|i: int| 0 <= i < name.drop_first().len() implies #[trigger] name.drop_first()[i]
            != '>' && !is_white_space(name.drop_first()[i]) by {
            assert(name.drop_first()[i] == name[i + 1]);
        }
        lemma_tag_name_len_of(name.drop_first(), rest);
    } else {
        assert(s[0] == '>');
    }
}

proof fn lemma_plain_tag(name: Seq<char>, rest: Seq<char>, in_script: bool, out: Seq<char>)
    requires
        forall|i: int| 0 <= i < name.len() ==> #[trigger] name[i] != '>' && !is_white_space(name[i]),
    ensures
        plain_run(seq!['<'] + name + seq!['>'] + rest, false, in_script, out) == plain_run(
            rest,
            false,
            plain_tag_effect(in_script, out, text_lowercase(name)).0,
            plain_tag_effect(in_script, out, text_lowercase(name)).1,
        ),
{
    let s = seq!['<'] + name + seq!['>'] + rest;
    assert(s[0] == '<');
    assert(s.drop_first() =~= name + seq!['>'] + rest);
    lemma_tag_name_len_of(name, rest);
    assert(s.subrange(1, 1 + name.len() as int) =~= name);
    let e = plain_tag_effect(in_script, out, text_lowercase(name));
    assert(s.skip(1 + name.len() as int) =~= seq!['>'] + rest);
    assert((seq!['>'] + rest)[0] == '>');
    assert((seq!['>'] + rest).drop_first() =~= rest);
    assert(tag_name_len(s.drop_first()) == name.len());
    assert(plain_run(s, false, in_script, out) == plain_run(s.skip(1 + name.len() as int), true, e.0, e.1));
    assert(plain_run(seq!['>'] + rest, true, e.0, e.1) == plain_run(rest, false, e.0, e.1));
}

/// Text with no tag mark (`<`, `>`) and no entity.
pub open spec fn plain_safe(t: Seq<char>) -> bool {
    forall|i: int| 0 <= i < t.len() ==> #[trigger] t[i] != '<' && t[i] != '>' && t[i] != '&'
}

/// A paragraph `<p>t</p>` of plain text becomes a line of its own in the
/// plain-text rendering, and a script element's content is dropped.
pub proof fn lemma_plain_text_paragraphs_and_scripts(t: Seq<char>)
    requires
        plain_safe(t),
        t.len() > 0,
        t.last() != '\n',
    ensures
        html_plain_text("<p>"@ + t + "</p>"@) == seq!['\n'] + t + seq!['\n'],
        html_plain_text("<script>"@ + t + "</script>"@) == Seq::<char>::empty(),
{
    reveal_strlit("<p>");
    reveal_strlit("</p>");
    reveal_strlit("<script>");
    reveal_strlit("</script>");
    reveal_strlit("p");
    reveal_strlit("/p");
    reveal_strlit("script");
    reveal_strlit("style");
    reveal_strlit("/script");
    reveal_strlit("/style");
    reveal_strlit("br");
    reveal_strlit("li");
    reveal_strlit("h");
    reveal_strlit("\n");
    let p = seq!['p'];
    let cp = seq!['/', 'p'];
    let sc = seq!['s', 'c', 'r', 'i', 'p', 't'];
    let csc = seq!['/', 's', 'c', 'r', 'i', 'p', 't'];
    assert(p =~= "p"@);
    assert(cp =~= "/p"@);
    assert(sc =~= "script"@);
    assert(csc =~= "/script"@);
    assert(is_ascii_text(p) && is_ascii_text(cp) && is_ascii_text(sc) && is_ascii_text(csc));
    assert(text_lowercase(p) =~= p);
    assert(text_lowercase(cp) =~= cp);
    assert(text_lowercase(sc) =~= sc);
    assert(text_lowercase(csc) =~= csc);
    assert forall|i: int| 0 <= i < t.len() implies #[trigger] t[i] != '<' && t[i] != '>' by {}
    // The paragraph.
    let s1 = "<p>"@ + t + "</p>"@;
    assert(s1 =~= seq!['<'] + p + seq!['>'] + (t + (seq!['<'] + cp + seq!['>'] + Seq::<char>::empty())));
    lemma_plain_tag(p, t + (seq!['<'] + cp + seq!['>'] + Seq::<char>::empty()), false, Seq::empty());
    assert(!ends_with(Seq::<char>::empty(), "\n"@));
    assert(plain_tag_effect(false, Seq::empty(), p) == (false, seq!['\n']));
    lemma_plain_text_run(t, seq!['<'] + cp + seq!['>'] + Seq::<char>::empty(), false, seq!['\n']);
    lemma_plain_tag(cp, Seq::empty(), false, seq!['\n'] + t);
    let o = seq!['\n'] + t;
    assert(o.last() == t.last());
    if ends_with(o, "\n"@) {
        assert(o.subrange(o.len() - 1, o.len() as int)[0] == o.last());
    }
    assert(plain_tag_effect(false, o, cp) == (false, o.push('\n')));
    assert(plain_run(s1, false, false, Seq::empty()) == o.push('\n'));
    assert forall|i: int| 0 <= i < o.push('\n').len() implies #[trigger] o.push('\n')[i] != '&' by {
        if 1 <= i < 1 + t.len() {
            assert(o.push('\n')[i] == t[i - 1]);
        }
    }
    lemma_no_entities(o.push('\n'));
    assert(o.push('\n') =~= seq!['\n'] + t + seq!['\n']);
    // The script.
    let s2 = "<script>"@ + t + "</script>"@;
    assert(s2 =~= seq!['<'] + sc + seq!['>'] + (t + (seq!['<'] + csc + seq!['>'] + Seq::<char>::empty())));
    lemma_plain_tag(sc, t + (seq!['<'] + csc + seq!['>'] + Seq::<char>::empty()), false, Seq::empty());
    lemma_plain_text_run(t, seq!['<'] + csc + seq!['>'] + Seq::<char>::empty(), true, Seq::empty());
    lemma_plain_tag(csc, Seq::empty(), true, Seq::empty());
    assert(sc != "/script"@);
    assert(plain_run(s2, false, false, Seq::empty()) == Seq::<char>::empty());
    lemma_no_entities(Seq::empty());
}

// ---------------------------------------------------------------------
// Markdown (through pulldown-cmark)
// ---------------------------------------------------------------------

/// The parser events the plain-text rendering distinguishes.
#[derive(Debug)]
pub enum MdEvent {
    Text(String),
    Code(String),
    StartParagraph,
    StartHeading,
    StartItem,
    EndParagraph,
    EndHeading,
    EndItem,
    SoftBreak,
    HardBreak,
    /// Any other event (emphasis, links, lists, rules, HTML, ...).
    Other,
}

/// pulldown-cmark's `ENABLE_TABLES | ENABLE_FOOTNOTES |
/// ENABLE_STRIKETHROUGH | ENABLE_TASKLISTS`.
pub const HTML_OPTIONS: u32 = 30;

/// pulldown-cmark's `ENABLE_TABLES | ENABLE_STRIKETHROUGH`.
pub const PLAIN_OPTIONS: u32 = 10;

/// What pulldown-cmark's `Parser::new_ext(md, options)` yields, event by
/// event, as `MdEvent`s.
pub uninterp spec fn markdown_events_of(md: Seq<char>, options: u32) -> Seq<MdEvent>;

/// What pulldown-cmark's `html::push_html` writes for the events of
/// `Parser::new_ext(md, options)`.
pub uninterp spec fn markdown_html_of(md: Seq<char>, options: u32) -> Seq<char>;

/// Runs pulldown-cmark's `Parser::new_ext` with the option bits `options`
/// and maps each event to an `MdEvent`; the list is named
/// `markdown_events_of(md, options)`.
#[verifier::external_body]
fn markdown_events(md: &str, options: u32) -> (r: Vec<MdEvent>)
    ensures
        r@ == markdown_events_of(md@, options),
{
    Parser::new_ext(md, Options::from_bits_truncate(options)).map(|e| match e {
        Event::Text(t) => MdEvent::Text(t.to_string()),
        Event::Code(c) => MdEvent::Code(c.to_string()),
        Event::Start(Tag::Paragraph) => MdEvent::StartParagraph,
        Event::Start(Tag::Heading { .. }) => MdEvent::StartHeading,
        Event::Start(Tag::Item) => MdEvent::StartItem,
        Event::End(TagEnd::Paragraph) => MdEvent::EndParagraph,
        Event::End(TagEnd::Heading(..)) => MdEvent::EndHeading,
        Event::End(TagEnd::Item) => MdEvent::EndItem,
        Event::SoftBreak => MdEvent::SoftBreak,
        Event::HardBreak => MdEvent::HardBreak,
        _ => MdEvent::Other,
    }).collect()
}

/// Runs pulldown-cmark's `html::push_html` on `Parser::new_ext(md,
/// options)` into an empty string; the HTML is named
/// `markdown_html_of(md, options)`.
#[verifier::external_body]
fn markdown_html_body(md: &str, options: u32) -> (r: String)
    ensures
        r@ == markdown_html_of(md@, options),
{
    let mut out = String::new();
    pulldown_cmark::html::push_html(&mut out, Parser::new_ext(md, Options::from_bits_truncate(options)));
    out
}

/// Plain text of a Markdown event stream, given the state reached so far:
/// text and inline code are kept, paragraphs, headings and list items
/// each end a line, and line breaks are kept.
pub open spec fn events_run(ev: Seq<MdEvent>, at_line_start: bool, out: Seq<char>) -> Seq<char>
    decreases ev.len(),
{
    if ev.len() == 0 {
        out
    } else {
        let rest = ev.drop_first();
        match ev[0] {
            MdEvent::Text(t) => events_run(rest, false, out + t@),
            MdEvent::Code(c) => events_run(rest, false, out + c@),
            MdEvent::StartParagraph | MdEvent::StartHeading | MdEvent::StartItem => events_run(
                rest,
                at_line_start,
                if !at_line_start && out.len() > 0 {
                    out.push('\n')
                } else {
                    out
                },
            ),
            MdEvent::EndParagraph | MdEvent::EndHeading | MdEvent::EndItem | MdEvent::SoftBreak
            | MdEvent::HardBreak => events_run(rest, true, out.push('\n')),
            MdEvent::Other => events_run(rest, at_line_start, out),
        }
    }
}

/// A line break between two runs of text, soft (a newline in the source
/// paragraph) or hard, keeps the runs on two lines: exactly one newline
/// goes between them, whatever came before.
pub proof fn lemma_line_breaks_separate_text(
    a: String,
    brk: MdEvent,
    b: String,
    at_line_start: bool,
    out: Seq<char>,
)
    requires
        brk is SoftBreak || brk is HardBreak,
    ensures
        events_run(seq![MdEvent::Text(a), brk, MdEvent::Text(b)], at_line_start, out) == out + a@
            + seq!['\n'] + b@,
{
    let ev = seq![MdEvent::Text(a), brk, MdEvent::Text(b)];
    assert(ev.drop_first() =~= seq![brk, MdEvent::Text(b)]);
    assert(ev.drop_first().drop_first() =~= seq![MdEvent::Text(b)]);
    assert(ev.drop_first().drop_first().drop_first() =~= Seq::<MdEvent>::empty());
    let e2 = seq![MdEvent::Text(b)];
    assert(events_run(e2, true, (out + a@).push('\n')) == events_run(
        Seq::<MdEvent>::empty(),
        false,
        (out + a@).push('\n') + b@,
    ));
    assert(events_run(seq![brk, MdEvent::Text(b)], false, out + a@) == events_run(
        e2,
        true,
        (out + a@).push('\n'),
    ));
    assert(events_run(ev, at_line_start, out) == events_run(seq![brk, MdEvent::Text(b)], false, out + a@));
    assert((out + a@).push('\n') + b@ =~= out + a@ + seq!['\n'] + b@);
}

/// In the plain text of Markdown, inline code is kept as text, the end
/// of a paragraph, heading or list item ends its line, and a block that
/// starts after text starts on a new line; events of any other kind add
/// nothing.
pub proof fn lemma_plain_text_blocks(
    a: String,
    c: String,
    e: MdEvent,
    st: MdEvent,
    b: String,
    at_line_start: bool,
    out: Seq<char>,
)
    requires
        e is EndParagraph || e is EndHeading || e is EndItem,
        st is StartParagraph || st is StartHeading || st is StartItem,
        a@.len() > 0,
    ensures
        events_run(seq![MdEvent::Text(a), e], at_line_start, out) == out + a@ + seq!['\n'],
        events_run(seq![MdEvent::Code(c)], at_line_start, out) == out + c@,
        events_run(seq![MdEvent::Text(a), st, MdEvent::Text(b)], at_line_start, out) == out + a@
            + seq!['\n'] + b@,
        events_run(seq![MdEvent::Other, MdEvent::Text(b)], at_line_start, out) == out + b@,
{
    let e1 = seq![MdEvent::Text(a), e];
    assert(e1.drop_first() =~= seq![e]);
    assert(seq![e].drop_first() =~= Seq::<MdEvent>::empty());
    assert(events_run(seq![e], false, out + a@) == events_run(Seq::<MdEvent>::empty(), true, (out + a@).push('\n')));
    assert((out + a@).push('\n') =~= out + a@ + seq!['\n']);
    let e2 = seq![MdEvent::Code(c)];
    assert(e2.drop_first() =~= Seq::<MdEvent>::empty());
    assert(events_run(e2, at_line_start, out) == events_run(Seq::<MdEvent>::empty(), false, out + c@));
    let e3 = seq![MdEvent::Text(a), st, MdEvent::Text(b)];
    assert(e3.drop_first() =~= seq![st, MdEvent::Text(b)]);
    assert(seq![st, MdEvent::Text(b)].drop_first() =~= seq![MdEvent::Text(b)]);
    assert(seq![MdEvent::Text(b)].drop_first() =~= Seq::<MdEvent>::empty());
    assert((out + a@).len() > 0);
    assert(events_run(seq![MdEvent::Text(b)], false, (out + a@).push('\n')) == events_run(
        Seq::<MdEvent>::empty(),
        false,
        (out + a@).push('\n') + b@,
    ));
    assert(events_run(seq![st, MdEvent::Text(b)], false, out + a@) == events_run(
        seq![MdEvent::Text(b)],
        false,
        (out + a@).push('\n'),
    ));
    assert((out + a@).push('\n') + b@ =~= out + a@ + seq!['\n'] + b@);
    let e4 = seq![MdEvent::Other, MdEvent::Text(b)];
    assert(e4.drop_first() =~= seq![MdEvent::Text(b)]);
    assert(events_run(seq![MdEvent::Text(b)], at_line_start, out) == events_run(
        Seq::<MdEvent>::empty(),
        false,
        out + b@,
    ));
}

/// The plain text of an event stream, trimmed, with one final newline.
pub open spec fn events_plain_text(ev: Seq<MdEvent>) -> Seq<char> {
    trim(events_run(ev, true, Seq::empty())) + "\n"@
}

/// Render a Markdown event stream as plain text.
pub fn events_to_plain_text(ev: &[MdEvent]) -> (r: Vec<char>)
    ensures
        r@ == events_plain_text(ev@),
{
    let n = ev.len();
    let mut out: Vec<char> = Vec::new();
    let mut at_line_start = true;
    let mut i: usize = 0;
    assert(ev@.skip(0) =~= ev@);
    while i < n
        invariant
            n == ev@.len(),
            i <= n,
            events_run(ev@, true, Seq::empty()) == events_run(ev@.skip(i as int), at_line_start, out@),
        decreases n - i,
    {
        let ghost rest = ev@.skip(i as int);
        assert(rest[0] == ev@[i as int]);
        assert(rest.drop_first() =~= ev@.skip(i + 1));
        match &ev[i] {
            MdEvent::Text(t) => {
                push_str_chars(&mut out, t.as_str());
                at_line_start = false;
            },
            MdEvent::Code(c) => {
                push_str_chars(&mut out, c.as_str());
                at_line_start = false;
            },
            MdEvent::StartParagraph | MdEvent::StartHeading | MdEvent::StartItem => {
                if !at_line_start && out.len() > 0 {
                    out.push('\n');
                }
            },
            MdEvent::EndParagraph | MdEvent::EndHeading | MdEvent::EndItem | MdEvent::SoftBreak
            | MdEvent::HardBreak => {
                out.push('\n');
                at_line_start = true;
            },
            MdEvent::Other => {},
        }
        i = i + 1;
    }
    assert(ev@.skip(n as int) =~= Seq::<MdEvent>::empty());
    let mut result = trim_chars(out.as_slice());
    result.push('\n');
    proof {
        reveal_strlit("\n");
    }
    assert(result@ =~= events_plain_text(ev@));
    result
}

/// The plain text of a Markdown document (tables and strikethrough
/// enabled).
pub fn markdown_to_plain_text(md: &str) -> (r: Vec<char>)
    ensures
        r@ == events_plain_text(markdown_events_of(md@, PLAIN_OPTIONS)),
{
    let ev = markdown_events(md, PLAIN_OPTIONS);
    events_to_plain_text(ev.as_slice())
}

/// Everything of the HTML page before the rendered body.
pub const HTML_PAGE_HEAD: &'static str = "<!DOCTYPE html>\n<html lang=\"en\">\n<head>\n  <meta charset=\"UTF-8\">\n  <meta name=\"viewport\" content=\"width=device-width, initial-scale=1.0\">\n  <title>Document</title>\n  <style>\n    body { font-family: -apple-system, BlinkMacSystemFont, 'Segoe UI', Roboto, Helvetica, Arial, sans-serif; line-height: 1.6; max-width: 800px; margin: 40px auto; padding: 0 20px; color: #24292e; }\n    pre { background: #f6f8fa; padding: 16px; border-radius: 6px; overflow-x: auto; }\n    code { font-family: monospace; background: #f6f8fa; padding: 2px 4px; border-radius: 3px; }\n    table { border-collapse: collapse; width: 100%; margin: 16px 0; }\n    th, td { border: 1px solid #dfe2e5; padding: 8px 12px; text-align: left; }\n    th { background: #f6f8fa; }\n    blockquote { border-left: 4px solid #dfe2e5; margin: 0; padding-left: 16px; color: #6a737d; }\n  </style>\n</head>\n<body>\n";

/// Everything of the HTML page after the rendered body.
pub const HTML_PAGE_TAIL: &'static str = "\n</body>\n</html>";

/// A complete, styled HTML page around a rendered body.
pub open spec fn html_page(body: Seq<char>) -> Seq<char> {
    HTML_PAGE_HEAD@ + body + HTML_PAGE_TAIL@
}

/// A complete HTML page for a Markdown document (tables, footnotes,
/// strikethrough and task lists enabled).
pub fn markdown_to_html(md: &str) -> (r: String)
    ensures
        r@ == html_page(markdown_html_of(md@, HTML_OPTIONS)),
{
    let body = markdown_html_body(md, HTML_OPTIONS);
    let mut page = String::from_str(HTML_PAGE_HEAD);
    page.append(body.as_str());
    page.append(HTML_PAGE_TAIL);
    page
}

// ---------------------------------------------------------------------
// Routes
// ---------------------------------------------------------------------

/// The text the markup adapter produces for `content` on the route
/// `from -> to`, or `None` when it has no such route.
pub open spec fn markup_conversion(content: Seq<char>, from: Format, to: Format) -> Option<Seq<char>> {
    if (from == Format::Markdown || from == Format::PlainText) && to == Format::Html {
        Some(html_page(markdown_html_of(content, HTML_OPTIONS)))
    } else if from == Format::Markdown && to == Format::PlainText {
        Some(events_plain_text(markdown_events_of(content, PLAIN_OPTIONS)))
    } else if from == Format::Html && to == Format::Markdown {
        Some(html_markdown(content))
    } else if from == Format::Html && to == Format::PlainText {
        Some(html_plain_text(content))
    } else if from == Format::PlainText && to == Format::Markdown {
        Some(content)
    } else {
        None
    }
}

/// The markup adapter advertises exactly the conversions it drives from
/// Markdown and HTML sources: every advertised route converts, and every
/// conversion from Markdown or HTML into another format is advertised.
/// (Plain-text sources are converted but not advertised: the documented
/// route table lists Markdown and HTML sources only.)
pub proof fn lemma_markup_routes_match_conversions(content: Seq<char>, from: Format, to: Format)
    ensures
        markup_routes().contains((from, to)) ==> markup_conversion(content, from, to) is Some,
        (from == Format::Markdown || from == Format::Html) && from != to && markup_conversion(
            content,
            from,
            to,
        ) is Some ==> markup_routes().contains((from, to)),
{
    let rs = markup_routes();
    if rs.contains((from, to)) {
        let i = choose|i: int| 0 <= i < rs.len() && rs[i] == (from, to);
    }
    if from == Format::Markdown && to == Format::Html {
        assert(rs[0] == (from, to));
    } else if from == Format::Markdown && to == Format::PlainText {
        assert(rs[1] == (from, to));
    } else if from == Format::Html && to == Format::Markdown {
        assert(rs[2] == (from, to));
    } else if from == Format::Html && to == Format::PlainText {
        assert(rs[3] == (from, to));
    }
}

/// The message for a route the markup adapter does not drive.
pub open spec fn unsupported_markup_route(from: Format, to: Format) -> Seq<char> {
    "unsupported markup route "@ + format_name(from) + " -> "@ + format_name(to)
}

/// Convert markup text along `from -> to`: the converted text, or the
/// reason the route is not driven by this adapter.
pub fn convert_markup(content: &str, from: Format, to: Format) -> (r: Result<String, String>)
    ensures
        match markup_conversion(content@, from, to) {
            Some(out) => r matches Ok(s) && s@ == out,
            None => r matches Err(m) && m@ == unsupported_markup_route(from, to),
        },
{
    let md_or_text = match from {
        Format::Markdown | Format::PlainText => true,
        _ => false,
    };
    if md_or_text && to == Format::Html {
        Ok(markdown_to_html(content))
    } else if from == Format::Markdown && to == Format::PlainText {
        let t = markdown_to_plain_text(content);
        Ok(chars_to_string(t.as_slice()))
    } else if from == Format::Html && to == Format::Markdown {
        let c = chars_of(content);
        let t = html_to_markdown(c.as_slice());
        Ok(chars_to_string(t.as_slice()))
    } else if from == Format::Html && to == Format::PlainText {
        let c = chars_of(content);
        let t = html_to_plain_text(c.as_slice());
        Ok(chars_to_string(t.as_slice()))
    } else if from == Format::PlainText && to == Format::Markdown {
        Ok(String::from_str(content))
    } else {
        let mut m = String::from_str("unsupported markup route ");
        m.append(from.as_str());
        m.append(" -> ");
        m.append(to.as_str());
        Err(m)
    }
}

} // verus!
