//! The route listing shown to users: every registered route, grouped by
//! adapter (groups in order of adapter name), each group's routes in
//! order of source, then target format name.
use vstd::prelude::*;
use crate::format::{format_name, Format};
use crate::text::{
    chars_equal, chars_less, chars_of, lemma_str_lt_irreflexive, lemma_str_lt_total,
    lemma_str_lt_transitive, str_lt,
};

verus! {

broadcast use vstd::seq_lib::to_multiset_insert, vstd::seq_lib::to_multiset_build;

/// A registered route with the name of the adapter serving it.
pub type RouteEntry = (Format, Format, &'static str);

/// `a` comes before `b`, or ties with it, in string order.
pub open spec fn str_le(a: Seq<char>, b: Seq<char>) -> bool {
    str_lt(a, b) || a == b
}

/// Listing order: by adapter name, then source format name, then target
/// format name.
pub open spec fn listed_before(a: RouteEntry, b: RouteEntry) -> bool {
    ||| str_lt(a.2@, b.2@)
    ||| a.2@ == b.2@ && str_lt(format_name(a.0), format_name(b.0))
    ||| a.2@ == b.2@ && format_name(a.0) == format_name(b.0) && str_le(
        format_name(a.1),
        format_name(b.1),
    )
}

/// Whether the entries are in listing order.
pub open spec fn listing_sorted(s: Seq<RouteEntry>) -> bool {
    forall|i: int, j: int| 0 <= i < j < s.len() ==> listed_before(#[trigger] s[i], #[trigger] s[j])
}

proof fn lemma_str_lt_asymmetric(a: Seq<char>, b: Seq<char>)
    requires
        str_lt(a, b),
    ensures
        !str_lt(b, a),
        a != b,
{
    lemma_str_lt_irreflexive(a);
    if str_lt(b, a) {
        lemma_str_lt_transitive(a, b, a);
    }
}

/// Any two entries are ordered one way or the other.
pub proof fn lemma_listed_total(a: RouteEntry, b: RouteEntry)
    ensures
        listed_before(a, b) || listed_before(b, a),
{
    if a.2@ != b.2@ {
        lemma_str_lt_total(a.2@, b.2@);
    } else if format_name(a.0) != format_name(b.0) {
        lemma_str_lt_total(format_name(a.0), format_name(b.0));
    } else if format_name(a.1) != format_name(b.1) {
        lemma_str_lt_total(format_name(a.1), format_name(b.1));
    }
}

/// Listing order is transitive.
pub proof fn lemma_listed_transitive(a: RouteEntry, b: RouteEntry, c: RouteEntry)
    requires
        listed_before(a, b),
        listed_before(b, c),
    ensures
        listed_before(a, c),
{
    let (a2, b2, c2) = (a.2@, b.2@, c.2@);
    if str_lt(a2, b2) && str_lt(b2, c2) {
        lemma_str_lt_transitive(a2, b2, c2);
    } else if a2 == b2 && b2 == c2 {
        let (a0, b0, c0) = (format_name(a.0), format_name(b.0), format_name(c.0));
        if str_lt(a0, b0) && str_lt(b0, c0) {
            lemma_str_lt_transitive(a0, b0, c0);
        } else if a0 == b0 && b0 == c0 {
            let (a1, b1, c1) = (format_name(a.1), format_name(b.1), format_name(c.1));
            if str_lt(a1, b1) && str_lt(b1, c1) {
                lemma_str_lt_transitive(a1, b1, c1);
            }
        }
    }
}

/// Compare two strings: (less, equal).
fn compare_names(a: &str, b: &str) -> (r: (bool, bool))
    ensures
        r.0 == str_lt(a@, b@),
        r.1 == (a@ == b@),
{
    let x = chars_of(a);
    let y = chars_of(b);
    (chars_less(x.as_slice(), y.as_slice()), chars_equal(x.as_slice(), y.as_slice()))
}

/// Whether `x` is listed strictly before `y`.
fn precedes(x: &RouteEntry, y: &RouteEntry) -> (r: bool)
    ensures
        r == !listed_before(*y, *x),
{
    let (lt, eq) = compare_names(x.2, y.2);
    if lt {
        proof {
            lemma_str_lt_asymmetric(x.2@, y.2@);
        }
        return true;
    }
    if !eq {
        proof {
            lemma_str_lt_total(x.2@, y.2@);
        }
        return false;
    }
    let (lt0, eq0) = compare_names(x.0.as_str(), y.0.as_str());
    if lt0 {
        proof {
            lemma_str_lt_asymmetric(format_name(x.0), format_name(y.0));
        }
        return true;
    }
    if !eq0 {
        proof {
            lemma_str_lt_total(format_name(x.0), format_name(y.0));
        }
        return false;
    }
    let (lt1, eq1) = compare_names(x.1.as_str(), y.1.as_str());
    proof {
        if lt1 {
            lemma_str_lt_asymmetric(format_name(x.1), format_name(y.1));
        } else if !eq1 {
            lemma_str_lt_total(format_name(x.1), format_name(y.1));
        } else {
            lemma_str_lt_irreflexive(format_name(x.1));
        }
    }
    lt1
}

/// The routes in listing order: the same entries, each as often as
/// given, sorted by adapter name, then source and target format name.
pub fn sorted_routes(routes: &Vec<RouteEntry>) -> (r: Vec<RouteEntry>)
    ensures
        listing_sorted(r@),
        r@.to_multiset() == routes@.to_multiset(),
{
    let mut out: Vec<RouteEntry> = Vec::new();
    let mut i: usize = 0;
    assert(routes@.take(0) =~= out@);
    while i < routes.len()
        invariant
            i <= routes@.len(),
            listing_sorted(out@),
            out@.to_multiset() == routes@.take(i as int).to_multiset(),
        decreases routes@.len() - i,
    {
        let x = routes[i];
        let mut pos: usize = 0;
        while pos < out.len() && !precedes(&x, &out[pos])
            invariant
                pos <= out@.len(),
                forall|k: int| 0 <= k < pos ==> listed_before(#[trigger] out@[k], x),
            decreases out@.len() - pos,
        {
            pos = pos + 1;
        }
        proof {
            if pos < out@.len() {
                lemma_listed_total(x, out@[pos as int]);
            }
        }
        let ghost old_out = out@;
        out.insert(pos, x);
        proof {
            assert forall|a: int, b: int| 0 <= a < b < out@.len() implies listed_before(
                #[trigger] out@[a],
                #[trigger] out@[b],
            ) by {
                if b < pos {
                    assert(out@[a] == old_out[a] && out@[b] == old_out[b]);
                } else if b == pos {
                    assert(out@[a] == old_out[a]);
                } else if a == pos {
                    assert(out@[b] == old_out[b - 1]);
                    if b - 1 > pos {
                        assert(listed_before(old_out[pos as int], old_out[b - 1]));
                        lemma_listed_transitive(x, old_out[pos as int], old_out[b - 1]);
                    }
                } else if a < pos {
                    assert(out@[a] == old_out[a] && out@[b] == old_out[b - 1]);
                } else {
                    assert(out@[a] == old_out[a - 1] && out@[b] == old_out[b - 1]);
                }
            }
            assert(routes@.take(i + 1) =~= routes@.take(i as int).push(x));
        }
        i = i + 1;
    }
    assert(routes@.take(routes@.len() as int) =~= routes@);
    out
}

/// The heading of an adapter's group in the route listing.
pub open spec fn group_title_of(adapter: Seq<char>) -> Seq<char> {
    if adapter == "image-rs"@ {
        "Raster Images (image-rs)"@
    } else if adapter == "data-adapter"@ {
        "Structured Data (data-adapter: JSON, YAML, TOML, CSV)"@
    } else if adapter == "markup-adapter"@ {
        "Markup & Web (markup-adapter: Markdown, HTML, Text)"@
    } else if adapter == "pdf-adapter"@ {
        "PDF Engine (pdf-adapter)"@
    } else if adapter == "libreoffice-headless"@ {
        "Office Documents (libreoffice-headless)"@
    } else {
        adapter
    }
}

/// The heading of an adapter's group in the route listing; an unknown
/// adapter is headed by its own name.
pub fn group_title<'a>(adapter: &'a str) -> (r: &'a str)
    ensures
        r@ == group_title_of(adapter@),
{
    let a = chars_of(adapter);
    if crate::text::chars_equal_str(a.as_slice(), "image-rs") {
        "Raster Images (image-rs)"
    } else if crate::text::chars_equal_str(a.as_slice(), "data-adapter") {
        "Structured Data (data-adapter: JSON, YAML, TOML, CSV)"
    } else if crate::text::chars_equal_str(a.as_slice(), "markup-adapter") {
        "Markup & Web (markup-adapter: Markdown, HTML, Text)"
    } else if crate::text::chars_equal_str(a.as_slice(), "pdf-adapter") {
        "PDF Engine (pdf-adapter)"
    } else if crate::text::chars_equal_str(a.as_slice(), "libreoffice-headless") {
        "Office Documents (libreoffice-headless)"
    } else {
        adapter
    }
}

} // verus!
