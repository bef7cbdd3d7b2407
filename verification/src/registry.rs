//! The adapter registry: which adapter can perform which conversion.
//!
//! Concrete engines implement [`ConversionAdapter`]; the registry keeps,
//! in registration order, each adapter's name and the routes it
//! advertises, and answers "who can do this route?" by position.
use vstd::prelude::*;
use crate::format::Format;

verus! {

/// One conversion route: source format, target format.
pub type Route = (Format, Format);

/// A concrete conversion capability: an adapter advertises every
/// `(from, to)` pair it supports.
pub trait ConversionAdapter: Send + Sync {
    /// The adapter's stable identifier.
    spec fn spec_name(&self) -> Seq<char>;

    /// The routes the adapter advertises, in order.
    spec fn spec_routes(&self) -> Seq<Route>;

    /// Stable identifier used in error messages and logs, e.g. "image-rs".
    fn name(&self) -> (r: &'static str)
        ensures
            r@ == self.spec_name(),
    ;

    /// All `(from, to)` format pairs this adapter can perform.
    fn supported_routes(&self) -> (r: Vec<Route>)
        ensures
            r@ == self.spec_routes(),
    ;
}

/// What the registry keeps of one adapter.
pub struct AdapterEntry {
    name: &'static str,
    routes: Vec<Route>,
}

/// Adapter names and routes, in registration order.
pub type RegistryView = Seq<(Seq<char>, Seq<Route>)>;

/// Holds every registered adapter and answers "who can do this route?".
pub struct Registry {
    adapters: Vec<AdapterEntry>,
}

/// The adapter `e` advertises `from -> to`.
pub open spec fn supports(e: (Seq<char>, Seq<Route>), from: Format, to: Format) -> bool {
    e.1.contains((from, to))
}

/// Position of the first adapter that advertises `from -> to`.
pub open spec fn first_supporting(v: RegistryView, from: Format, to: Format) -> Option<int>
    decreases v.len(),
{
    if v.len() == 0 {
        None
    } else {
        match first_supporting(v.drop_last(), from, to) {
            Some(i) => Some(i),
            None => if supports(v.last(), from, to) {
                Some(v.len() - 1)
            } else {
                None
            },
        }
    }
}

/// Every advertised route, tagged with its adapter's name, in
/// registration order.
pub open spec fn flat_routes(v: RegistryView) -> Seq<(Format, Format, Seq<char>)>
    decreases v.len(),
{
    if v.len() == 0 {
        Seq::empty()
    } else {
        flat_routes(v.drop_last()) + tagged(v.last())
    }
}

pub open spec fn tagged(e: (Seq<char>, Seq<Route>)) -> Seq<(Format, Format, Seq<char>)> {
    e.1.map_values(|r: Route| (r.0, r.1, e.0))
}

pub closed spec fn entry_view(e: AdapterEntry) -> (Seq<char>, Seq<Route>) {
    (e.name@, e.routes@)
}

impl View for Registry {
    type V = RegistryView;

    closed spec fn view(&self) -> RegistryView {
        self.adapters@.map_values(|e: AdapterEntry| entry_view(e))
    }
}

/// The tagged routes of one entry, as the executable triples.
pub open spec fn triples_view(s: Seq<(Format, Format, &'static str)>) -> Seq<(Format, Format, Seq<char>)> {
    s.map_values(|t: (Format, Format, &'static str)| (t.0, t.1, t.2@))
}

proof fn lemma_first_supporting(v: RegistryView, from: Format, to: Format)
    ensures
        match first_supporting(v, from, to) {
            Some(i) => 0 <= i < v.len() && supports(v[i], from, to) && forall|j: int|
                0 <= j < i ==> !supports(#[trigger] v[j], from, to),
            None => forall|j: int| 0 <= j < v.len() ==> !supports(#[trigger] v[j], from, to),
        },
    decreases v.len(),
{
    if v.len() > 0 {
        lemma_first_supporting(v.drop_last(), from, to);
        assert forall|j: int| 0 <= j < v.len() - 1 implies #[trigger] v[j] == v.drop_last()[j] by {}
    }
}

fn route_listed(routes: &Vec<Route>, from: Format, to: Format) -> (r: bool)
    ensures
        r == routes@.contains((from, to)),
{
    let mut i: usize = 0;
    while i < routes.len()
        invariant
            i <= routes@.len(),
            forall|j: int| 0 <= j < i ==> routes@[j] != (from, to),
        decreases routes@.len() - i,
    {
        let (f, t) = routes[i];
        if f == from && t == to {
            assert(routes@[i as int] == (from, to));
            return true;
        }
        i = i + 1;
    }
    false
}

impl Registry {
    pub fn new() -> (r: Registry)
        ensures
            r@ == RegistryView::empty(),
    {
        let r = Registry { adapters: Vec::new() };
        assert(r@ =~= RegistryView::empty());
        r
    }

    /// Append an adapter: it is consulted after every adapter registered
    /// before it.
    pub fn register<A: ConversionAdapter>(&mut self, adapter: &A)
        ensures
            final(self)@ == old(self)@.push((adapter.spec_name(), adapter.spec_routes())),
    {
        let name = adapter.name();
        let routes = adapter.supported_routes();
        let ghost before = self@;
        self.adapters.push(AdapterEntry { name, routes });
        assert(self@ =~= before.push((adapter.spec_name(), adapter.spec_routes())));
    }

    /// Number of registered adapters.
    pub fn len(&self) -> (r: usize)
        ensures
            r == self@.len(),
    {
        self.adapters.len()
    }

    /// Name of the adapter registered at position `i`.
    pub fn adapter_name(&self, i: usize) -> (r: &'static str)
        requires
            i < self@.len(),
        ensures
            r@ == self@[i as int].0,
    {
        self.adapters[i].name
    }

    /// Position of the first adapter advertising `from -> to`. If several
    /// adapters claim the same route, the first registered wins.
    pub fn find_adapter(&self, from: Format, to: Format) -> (r: Option<usize>)
        ensures
            r == match first_supporting(self@, from, to) {
                Some(i) => Some(i as usize),
                None => None::<usize>,
            },
            r matches Some(i) ==> i < self@.len() && supports(self@[i as int], from, to)
                && forall|j: int| 0 <= j < i ==> !supports(#[trigger] self@[j], from, to),
            r is None ==> forall|j: int| 0 <= j < self@.len() ==> !supports(#[trigger] self@[j], from, to),
    {
        proof {
            lemma_first_supporting(self@, from, to);
        }
        let mut i: usize = 0;
        while i < self.adapters.len()
            invariant
                i <= self@.len(),
                forall|j: int| 0 <= j < i ==> !supports(#[trigger] self@[j], from, to),
            decreases self@.len() - i,
        {
            if route_listed(&self.adapters[i].routes, from, to) {
                assert(supports(self@[i as int], from, to));
                proof {
                    lemma_first_supporting(self@, from, to);
                    match first_supporting(self@, from, to) {
                        Some(k) => {
                            if k < i {
                                assert(!supports(self@[k], from, to));
                            } else if k > i {
                                assert(!supports(self@[i as int], from, to));
                            }
                        },
                        None => {
                            assert(!supports(self@[i as int], from, to));
                        },
                    }
                }
                return Some(i);
            }
            assert(!supports(self@[i as int], from, to));
            i = i + 1;
        }
        proof {
            match first_supporting(self@, from, to) {
                Some(k) => {
                    assert(!supports(self@[k], from, to));
                },
                None => {},
            }
        }
        None
    }

    /// Every `(from, to, adapter name)` triple, adapters in registration
    /// order and each adapter's routes in its own order.
    pub fn all_routes(&self) -> (r: Vec<(Format, Format, &'static str)>)
        ensures
            triples_view(r@) == flat_routes(self@),
    {
        let mut out: Vec<(Format, Format, &'static str)> = Vec::new();
        let mut i: usize = 0;
        while i < self.adapters.len()
            invariant
                i <= self@.len(),
                triples_view(out@) == flat_routes(self@.take(i as int)),
            decreases self@.len() - i,
        {
            let e = &self.adapters[i];
            let ghost before = out@;
            let mut k: usize = 0;
            while k < e.routes.len()
                invariant
                    e == &self.adapters@[i as int],
                    k <= e.routes@.len(),
                    out@ == before + e.routes@.take(k as int).map_values(
                        |r: Route| (r.0, r.1, e.name),
                    ),
                decreases e.routes@.len() - k,
            {
                let (f, t) = e.routes[k];
                out.push((f, t, e.name));
                assert(e.routes@.take(k + 1).map_values(|r: Route| (r.0, r.1, e.name))
                    =~= e.routes@.take(k as int).map_values(|r: Route| (r.0, r.1, e.name)).push(
                    (f, t, e.name),
                ));
                k = k + 1;
            }
            proof {
                assert(e.routes@.take(e.routes@.len() as int) =~= e.routes@);
                assert(self@.take(i + 1).drop_last() =~= self@.take(i as int));
                assert(self@.take(i + 1).last() == entry_view(*e));
                assert(triples_view(out@) =~= triples_view(before) + tagged(entry_view(*e)));
            }
            i = i + 1;
        }
        assert(self@.take(self@.len() as int) =~= self@);
        out
    }
}

impl Default for Registry {
    fn default() -> (r: Registry)
        ensures
            r@ == RegistryView::empty(),
    {
        Registry::new()
    }
}

/// Registering an adapter never changes which adapter an earlier lookup
/// found, and a route nobody served before goes to the new adapter exactly
/// when it advertises it.
pub proof fn lemma_register_keeps_earlier_choice(
    v: RegistryView,
    e: (Seq<char>, Seq<Route>),
    from: Format,
    to: Format,
)
    ensures
        first_supporting(v, from, to) is Some ==> first_supporting(v.push(e), from, to)
            == first_supporting(v, from, to),
        first_supporting(v, from, to) is None ==> first_supporting(v.push(e), from, to) == (if supports(
            e,
            from,
            to,
        ) {
            Some(v.len() as int)
        } else {
            None
        }),
{
    assert(v.push(e).drop_last() =~= v);
}

/// Registering an adapter appends its tagged routes to the route listing.
pub proof fn lemma_register_appends_routes(v: RegistryView, e: (Seq<char>, Seq<Route>))
    ensures
        flat_routes(v.push(e)) == flat_routes(v) + tagged(e),
{
    assert(v.push(e).drop_last() =~= v);
}

} // verus!
