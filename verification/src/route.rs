//! Routes, and the rule by which a request selects one of them.

use vstd::prelude::*;

use crate::path::{segments, RequestPath};

verus! {

/// An HTTP request method.
#[derive(Clone, Copy, Debug, PartialEq, Eq, Structural)]
pub enum Method {
    Get,
    Put,
    Post,
    Delete,
    Options,
    Head,
    Trace,
    Connect,
    Patch,
}

/// What a route leads to.
#[derive(Clone, Copy, Debug, PartialEq, Eq, Structural)]
pub enum Handler {
    /// The index page of the web interface.
    Index,
    /// A file of the web interface, named by the rest of the path.
    Asset,
    /// A handler supplied from outside, known by its number only.
    External(u32),
}

/// A binding of a method and a path pattern to a handler. The pattern is a
/// list of segments, followed by one trailing wildcard or by nothing.
pub struct Route {
    method: Method,
    pattern: RequestPath,
    wildcard: bool,
    handler: Handler,
}

/// A route as the contracts see it.
pub struct RouteView {
    pub method: Method,
    pub segments: Seq<Seq<char>>,
    pub wildcard: bool,
    pub handler: Handler,
}

impl RouteView {
    /// Whether a request with this method and these segments is one for
    /// this route. Without a wildcard the segments are those of the
    /// pattern; with one they are those of the pattern and at least one
    /// more.
    pub open spec fn matches(self, method: Method, segs: Seq<Seq<char>>) -> bool {
        &&& self.method == method
        &&& if self.wildcard {
            self.segments.len() < segs.len() && self.segments.is_prefix_of(segs)
        } else {
            self.segments == segs
        }
    }

    /// The route with `base` put before its pattern.
    pub open spec fn mounted(self, base: Seq<Seq<char>>) -> RouteView {
        RouteView {
            method: self.method,
            segments: base + self.segments,
            wildcard: self.wildcard,
            handler: self.handler,
        }
    }
}

impl View for Route {
    type V = RouteView;

    closed spec fn view(&self) -> RouteView {
        RouteView {
            method: self.method,
            segments: self.pattern@,
            wildcard: self.wildcard,
            handler: self.handler,
        }
    }
}

impl Route {
    /// A route for requests to exactly `path`.
    pub fn exact(method: Method, path: &str, handler: Handler) -> (route: Route)
        ensures
            route@ == (RouteView { method, segments: segments(path@), wildcard: false, handler }),
    {
        Route { method, pattern: RequestPath::parse(path), wildcard: false, handler }
    }

    /// A route for requests to everything nested under `prefix`.
    pub fn nested(method: Method, prefix: &str, handler: Handler) -> (route: Route)
        ensures
            route@ == (RouteView { method, segments: segments(prefix@), wildcard: true, handler }),
    {
        Route { method, pattern: RequestPath::parse(prefix), wildcard: true, handler }
    }

    /// The same route below the mount point `base`.
    pub fn mount(self, base: &str) -> (route: Route)
        ensures
            route@ == self@.mounted(segments(base@)),
    {
        Route {
            method: self.method,
            pattern: RequestPath::parse(base).join(self.pattern),
            wildcard: self.wildcard,
            handler: self.handler,
        }
    }

    /// The method that the route serves.
    pub fn method(&self) -> (method: Method)
        ensures
            method == self@.method,
    {
        self.method
    }

    /// What the route leads to.
    pub fn handler(&self) -> (handler: Handler)
        ensures
            handler == self@.handler,
    {
        self.handler
    }

    /// Whether the pattern ends in a wildcard.
    pub fn is_wildcard(&self) -> (wildcard: bool)
        ensures
            wildcard == self@.wildcard,
    {
        self.wildcard
    }

    /// The segments of the pattern, without the wildcard.
    pub fn pattern(&self) -> (pattern: &RequestPath)
        ensures
            pattern@ == self@.segments,
    {
        &self.pattern
    }

    /// Whether a request with this method and path is one for this route.
    pub fn matches(&self, method: Method, path: &RequestPath) -> (yes: bool)
        ensures
            yes == self@.matches(method, path@),
    {
        if self.method != method {
            return false;
        }
        if self.wildcard {
            self.pattern.len() < path.len() && self.pattern.is_prefix_of(path)
        } else {
            self.pattern.equals(path)
        }
    }
}

/// The routes of a table as the contracts see them.
pub open spec fn table_view(routes: Seq<Route>) -> Seq<RouteView> {
    Seq::new(routes.len(), |i: int| routes[i]@)
}

/// The place of the first route from `from` on that has the given kind of
/// pattern and matches the request.
pub open spec fn first_match(
    table: Seq<RouteView>,
    method: Method,
    segs: Seq<Seq<char>>,
    wildcard: bool,
    from: int,
) -> Option<int>
    decreases table.len() - from,
{
    if from < 0 || from >= table.len() {
        None
    } else if table[from].wildcard == wildcard && table[from].matches(method, segs) {
        Some(from)
    } else {
        first_match(table, method, segs, wildcard, from + 1)
    }
}

/// The place of the route that serves a request: the first route without
/// a wildcard that matches it, and only where there is none, the first
/// route with a wildcard that does.
pub open spec fn selected(table: Seq<RouteView>, method: Method, segs: Seq<Seq<char>>) -> Option<
    int,
> {
    match first_match(table, method, segs, false, 0) {
        Some(i) => Some(i),
        None => first_match(table, method, segs, true, 0),
    }
}

/// What `first_match` gives is the least place from `from` on whose
/// route has the given kind of pattern and matches, and nothing where no
/// such route is left.
pub proof fn lemma_first_match(
    table: Seq<RouteView>,
    method: Method,
    segs: Seq<Seq<char>>,
    wildcard: bool,
    from: int,
)
    requires
        0 <= from,
    ensures
        match first_match(table, method, segs, wildcard, from) {
            Some(i) => {
                &&& from <= i < table.len()
                &&& table[i].wildcard == wildcard
                &&& table[i].matches(method, segs)
                &&& forall|j: int|
                    from <= j < i ==> !(table[j].wildcard == wildcard && #[trigger] table[j].matches(
                        method,
                        segs,
                    ))
            },
            None => forall|j: int|
                from <= j < table.len() ==> !(table[j].wildcard == wildcard
                    && #[trigger] table[j].matches(method, segs)),
        },
    decreases table.len() - from,
{
    if from < table.len() && !(table[from].wildcard == wildcard && table[from].matches(
        method,
        segs,
    )) {
        lemma_first_match(table, method, segs, wildcard, from + 1);
    }
}

/// The route that serves a request is one that matches it; it has a
/// wildcard only where no route without one matches; and it is the first
/// of its kind that matches.
pub proof fn lemma_selected_route(table: Seq<RouteView>, method: Method, segs: Seq<Seq<char>>)
    ensures
        selected(table, method, segs) matches Some(i) ==> {
            &&& 0 <= i < table.len()
            &&& table[i].matches(method, segs)
            &&& forall|j: int|
                0 <= j < i && table[j].wildcard == table[i].wildcard ==> !#[trigger] table[j].matches(
                    method,
                    segs,
                )
            &&& table[i].wildcard ==> forall|j: int|
                0 <= j < table.len() && !table[j].wildcard ==> !#[trigger] table[j].matches(
                    method,
                    segs,
                )
        },
{
    lemma_first_match(table, method, segs, false, 0);
    lemma_first_match(table, method, segs, true, 0);
}

/// A request is served by some route exactly where some route of the
/// table matches it, wherever in the table that route stands.
pub proof fn lemma_covered_iff_matched(
    table: Seq<RouteView>,
    method: Method,
    segs: Seq<Seq<char>>,
)
    ensures
        selected(table, method, segs) is Some <==> exists|i: int|
            0 <= i < table.len() && #[trigger] table[i].matches(method, segs),
{
    lemma_first_match(table, method, segs, false, 0);
    lemma_first_match(table, method, segs, true, 0);
}

/// Looks for the first route from the start that has the given kind of
/// pattern and matches the request.
fn find(routes: &Vec<Route>, method: Method, path: &RequestPath, wildcard: bool) -> (found: Option<
    usize,
>)
    ensures
        match found {
            Some(i) => first_match(table_view(routes@), method, path@, wildcard, 0) == Some(
                i as int,
            ) && i < routes.len(),
            None => first_match(table_view(routes@), method, path@, wildcard, 0) is None,
        },
{
    let ghost table = table_view(routes@);
    let mut i: usize = 0;
    while i < routes.len()
        invariant
            i <= routes.len(),
            table == table_view(routes@),
            first_match(table, method, path@, wildcard, 0) == first_match(
                table,
                method,
                path@,
                wildcard,
                i as int,
            ),
        decreases routes.len() - i,
    {
        assert(table[i as int] == routes@[i as int]@);
        if routes[i].is_wildcard() == wildcard && routes[i].matches(method, path) {
            return Some(i);
        }
        i += 1;
    }
    None
}

/// The place in `routes` of the route that serves the request.
pub fn select(routes: &Vec<Route>, method: Method, path: &RequestPath) -> (found: Option<usize>)
    ensures
        match found {
            Some(i) => selected(table_view(routes@), method, path@) == Some(i as int) && i
                < routes.len(),
            None => selected(table_view(routes@), method, path@) is None,
        },
{
    match find(routes, method, path, false) {
        Some(i) => Some(i),
        None => find(routes, method, path, true),
    }
}

} // verus!
