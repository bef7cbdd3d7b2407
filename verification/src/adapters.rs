//! The default set of adapters, registered in priority order.
use vstd::prelude::*;
use crate::data_adapter::{DataAdapter, data_routes};
use crate::doc_adapter::{LibreOfficeAdapter, office_routes};
use crate::image_adapter::{ImageAdapter, image_routes, lemma_image_routes_are_all_permutations};
use crate::markup_adapter::{
    MarkupAdapter, markup_routes, markup_conversion, lemma_markup_routes_match_conversions,
};
use crate::pdf_adapter::{PdfAdapter, pdf_routes};
use crate::registry::{Registry, RegistryView, flat_routes, first_supporting};
use crate::format::Format;

verus! {

/// The adapters of the default registry, in registration order: native
/// codec adapters first, the LibreOffice fallback last.
pub open spec fn default_registry() -> RegistryView {
    seq![
        ("image-rs"@, image_routes()),
        ("data-adapter"@, data_routes()),
        ("markup-adapter"@, markup_routes()),
        ("pdf-adapter"@, pdf_routes()),
        ("libreoffice-headless"@, office_routes()),
    ]
}

/// Build a registry with every adapter this crate provides. Native codec
/// adapters are registered before the LibreOffice fallback, so a route
/// with two implementations prefers the dependency-free one.
pub fn build_default_registry() -> (r: Registry)
    ensures
        r@ == default_registry(),
{
    let mut registry = Registry::new();
    registry.register(&ImageAdapter);
    registry.register(&DataAdapter);
    registry.register(&MarkupAdapter);
    registry.register(&PdfAdapter);
    registry.register(&LibreOfficeAdapter::new(None));
    assert(registry@ =~= default_registry());
    registry
}

/// The default registry advertises 54 routes: 30 image, 12 data, 4 markup,
/// 2 PDF and 6 office conversions.
pub proof fn lemma_default_route_count()
    ensures
        flat_routes(default_registry()).len() == 54,
{
    let v = default_registry();
    assert(v.drop_last().drop_last().drop_last().drop_last().drop_last() =~= RegistryView::empty());
    reveal_with_fuel(flat_routes, 6);
}

/// The default registry sends every conversion the markup adapter drives
/// from Markdown or HTML into another format to the markup adapter (third
/// registered): no adapter before it claims these routes.
pub proof fn lemma_markup_conversions_are_routed(content: Seq<char>, from: Format, to: Format)
    requires
        from == Format::Markdown || from == Format::Html,
        from != to,
        markup_conversion(content, from, to) is Some,
    ensures
        first_supporting(default_registry(), from, to) == Some(2int),
{
    lemma_markup_routes_match_conversions(content, from, to);
    lemma_image_routes_are_all_permutations(from, to);
    let v = default_registry();
    let d = data_routes();
    if d.contains((from, to)) {
        let i = choose|i: int| 0 <= i < d.len() && d[i] == (from, to);
        assert(d[i].0 != Format::Markdown && d[i].0 != Format::Html);
    }
    assert(v.drop_last().drop_last().drop_last() =~= seq![v[0], v[1]]);
    assert(v.drop_last().drop_last().drop_last().drop_last() =~= seq![v[0]]);
    assert(v.drop_last().drop_last().drop_last().drop_last().drop_last() =~= RegistryView::empty());
    reveal_with_fuel(first_supporting, 6);
}

} // verus!
