//! Resolves a requested (source, target) format pair to a registered
//! adapter, or fails fast with a typed `RouteError` before any filesystem
//! work happens.
use vstd::prelude::*;
use crate::errors::RouteError;
use crate::format::{Format, format_name};
use crate::registry::{Registry, first_supporting};

verus! {

/// Resolve `from -> to` against `registry`: the position of the adapter
/// to use, or the reason no conversion can proceed. Identical formats are
/// refused even when some adapter advertises the pair.
pub fn resolve_route(registry: &Registry, from: Format, to: Format) -> (r: Result<usize, RouteError>)
    ensures
        from == to ==> (r matches Err(RouteError::IdenticalFormats(s)) && s@ == format_name(from)),
        from != to ==> match first_supporting(registry@, from, to) {
            Some(i) => r == Ok::<usize, RouteError>(i as usize),
            None => r matches Err(RouteError::NoRoute { from: a, to: b }) && a@ == format_name(from)
                && b@ == format_name(to),
        },
{
    if from == to {
        return Err(RouteError::IdenticalFormats(String::from_str(from.as_str())));
    }
    match registry.find_adapter(from, to) {
        Some(i) => Ok(i),
        None => Err(
            RouteError::NoRoute {
                from: String::from_str(from.as_str()),
                to: String::from_str(to.as_str()),
            },
        ),
    }
}

} // verus!
