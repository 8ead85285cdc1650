//! The server: the shared context, the route table and the error
//! handlers, put together once and read on every request.

use vstd::prelude::*;
use vstd::std_specs::iter::IteratorSpec;

use crate::context::SharedContext;
use crate::error::{not_found, Error};
use crate::path::{
    is_segment, lemma_confined_file_stays_below, lemma_segments_are_segments, segments,
    stays_below, RequestPath,
};
use crate::route::{
    lemma_covered_iff_matched, lemma_selected_route, select, selected, table_view, Handler,
    Method, Route, RouteView,
};
use crate::web::{
    asset_file, found_on, index_file, lemma_index_stays_below, reply_of, static_root,
    web_interface, web_interface_index,
};

verus! {

/// What is to be done for a request.
#[derive(Debug, PartialEq, Eq)]
pub enum Action {
    /// Read this file, relative to the working directory, and answer with
    /// what [`crate::web::file_reply`] makes of it.
    Open(String),
    /// Call the outside handler with this number.
    Call(u32),
    /// Answer with this error.
    Fail(Error),
}

/// An action as the contracts see it.
pub enum Decision {
    Open(Seq<char>),
    Call(u32),
    Fail(Error),
}

impl View for Action {
    type V = Decision;

    open spec fn view(&self) -> Decision {
        match self {
            Action::Open(file) => Decision::Open(file@),
            Action::Call(handler) => Decision::Call(*handler),
            Action::Fail(error) => Decision::Fail(*error),
        }
    }
}

/// What the route `route` does with a request of the segments `segs` that
/// it matches.
pub open spec fn outcome(route: RouteView, segs: Seq<Seq<char>>) -> Decision {
    match route.handler {
        Handler::Index => Decision::Open(index_file()),
        Handler::Asset => match asset_file(segs.skip(route.segments.len() as int)) {
            Some(file) => Decision::Open(file),
            None => Decision::Fail(Error::NotFound),
        },
        Handler::External(handler) => Decision::Call(handler),
    }
}

/// What is to be done for a request: what the route that serves it does,
/// and not found where no route serves it.
pub open spec fn decide(table: Seq<RouteView>, method: Method, segs: Seq<Seq<char>>) -> Decision {
    match selected(table, method, segs) {
        Some(i) => outcome(table[i], segs),
        None => Decision::Fail(Error::NotFound),
    }
}

/// The answer to a request on a disk that holds `disk`, where the server
/// gives the answer itself; nothing where an outside handler gives it.
pub open spec fn answer(
    table: Seq<RouteView>,
    disk: Map<Seq<char>, Seq<u8>>,
    method: Method,
    segs: Seq<Seq<char>>,
) -> Option<Result<Seq<u8>, Error>> {
    match decide(table, method, segs) {
        Decision::Open(file) => Some(reply_of(found_on(disk, file))),
        Decision::Call(_) => None,
        Decision::Fail(error) => Some(Err(error)),
    }
}

/// The routes of `table`, each below the mount point `base`.
pub open spec fn mounted_table(table: Seq<RouteView>, base: Seq<Seq<char>>) -> Seq<RouteView> {
    Seq::new(table.len(), |i: int| table[i].mounted(base))
}

/// The error that answers the status `status`, where one of the
/// registered errors stands for it.
pub open spec fn catcher_for(catchers: Seq<Error>, status: u16) -> Option<Error> {
    if status == Error::NotFound.status_code() && catchers.contains(Error::NotFound) {
        Some(Error::NotFound)
    } else if status == Error::Unauthorized.status_code() && catchers.contains(
        Error::Unauthorized,
    ) {
        Some(Error::Unauthorized)
    } else {
        None
    }
}

/// A request that no route of the table matches is answered with not
/// found.
pub proof fn lemma_unmatched_is_not_found(
    table: Seq<RouteView>,
    method: Method,
    segs: Seq<Seq<char>>,
)
    requires
        forall|i: int| 0 <= i < table.len() ==> !#[trigger] table[i].matches(method, segs),
    ensures
        decide(table, method, segs) == Decision::Fail(Error::NotFound),
{
    lemma_covered_iff_matched(table, method, segs);
}

/// Whatever the table, the only files that are opened for a request lie
/// below the static root.
pub proof fn lemma_opened_file_stays_below(
    table: Seq<RouteView>,
    method: Method,
    raw: Seq<char>,
)
    ensures
        decide(table, method, segments(raw)) matches Decision::Open(file) ==> stays_below(
            static_root(),
            file,
        ),
{
    let segs = segments(raw);
    lemma_index_stays_below();
    lemma_segments_are_segments(raw);
    if selected(table, method, segs) is Some {
        let route = table[selected(table, method, segs)->0];
        let captured = segs.skip(route.segments.len() as int);
        lemma_selected_route(table, method, segs);
        assert forall|i: int| 0 <= i < captured.len() implies is_segment(
            #[trigger] captured[i],
        ) by {
            assert(captured[i] == segs[i + route.segments.len()]);
        }
        lemma_confined_file_stays_below(static_root(), captured);
    }
}

/// A server: complete once composed, and only read after that.
pub struct Server {
    context: SharedContext,
    routes: Vec<Route>,
    catchers: Vec<Error>,
}

impl Server {
    /// The shared context.
    pub closed spec fn spec_context(&self) -> &SharedContext {
        &self.context
    }

    /// The route table, in the order of registration.
    pub closed spec fn table(&self) -> Seq<RouteView> {
        table_view(self.routes@)
    }

    /// The registered error handlers, in the order of registration.
    pub closed spec fn catchers(&self) -> Seq<Error> {
        self.catchers@
    }

    /// A server that holds `context` and has no route and no error
    /// handler yet.
    pub fn new(context: SharedContext) -> (server: Server)
        ensures
            *server.context() == context,
            server.table() == Seq::<RouteView>::empty(),
            server.catchers() == Seq::<Error>::empty(),
    {
        Server { context, routes: Vec::new(), catchers: Vec::new() }
    }

    /// Adds `routes` to the table, each below the mount point `base`.
    pub fn mount(self, base: &str, routes: Vec<Route>) -> (server: Server)
        ensures
            server.context() == self.context(),
            server.table() == self.table() + mounted_table(table_view(routes@), segments(base@)),
            server.catchers() == self.catchers(),
    {
        let ghost given = table_view(routes@);
        let ghost before = self.table();
        let mut table = self.routes;
        for route in it: routes
            invariant
                table_view(it.seq()) == given,
                table_view(table@) == before + mounted_table(
                    given.take(it.index() as int),
                    segments(base@),
                ),
        {
            let ghost k = it.index() as int;
            let ghost so_far = table_view(table@);
            assert(given[k] == route@);
            let mounted = route.mount(base);
            table.push(mounted);
            assert(table_view(table@) =~= so_far.push(mounted@));
            assert(mounted_table(given.take(k + 1), segments(base@)) =~= mounted_table(
                given.take(k),
                segments(base@),
            ).push(mounted@));
        }
        assert(given.take(given.len() as int) == given);
        Server { context: self.context, routes: table, catchers: self.catchers }
    }

    /// Registers the error handlers `catchers`.
    pub fn catch(self, catchers: Vec<Error>) -> (server: Server)
        ensures
            server.context() == self.context(),
            server.table() == self.table(),
            server.catchers() == self.catchers() + catchers@,
    {
        let mut all = self.catchers;
        let mut more = catchers;
        all.append(&mut more);
        Server { context: self.context, routes: self.routes, catchers: all }
    }

    /// The shared context, to read.
    #[verifier::when_used_as_spec(spec_context)]
    pub fn context(&self) -> (context: &SharedContext)
        ensures
            context == self.spec_context(),
    {
        &self.context
    }

    /// The number of routes in the table.
    pub fn route_count(&self) -> (n: usize)
        ensures
            n == self.table().len(),
    {
        self.routes.len()
    }

    /// Says what is to be done for a request.
    pub fn dispatch(&self, method: Method, path: &str) -> (action: Action)
        ensures
            action@ == decide(self.table(), method, segments(path@)),
            action matches Action::Open(file) ==> stays_below(static_root(), file@),
    {
        let request = RequestPath::parse(path);
        proof {
            lemma_selected_route(self.table(), method, request@);
            lemma_opened_file_stays_below(self.table(), method, path@);
        }
        match select(&self.routes, method, &request) {
            None => Action::Fail(not_found()),
            Some(i) => {
                let route = &self.routes[i];
                assert(self.table()[i as int] == route@);
                match route.handler() {
                    Handler::Index => Action::Open(web_interface_index()),
                    Handler::Asset => {
                        let captured = request.skip(route.pattern().len());
                        match web_interface(&captured) {
                            Some(file) => Action::Open(file),
                            None => Action::Fail(not_found()),
                        }
                    },
                    Handler::External(handler) => Action::Call(handler),
                }
            },
        }
    }

    /// The error that answers the status `status`, where an error handler
    /// is registered for it.
    pub fn catcher(&self, status: u16) -> (caught: Option<Error>)
        ensures
            caught == catcher_for(self.catchers(), status),
    {
        let mut i: usize = 0;
        while i < self.catchers.len()
            invariant
                i <= self.catchers.len(),
                forall|j: int| 0 <= j < i ==> self.catchers@[j].status_code() != status,
            decreases self.catchers.len() - i,
        {
            if self.catchers[i].status() == status {
                return Some(self.catchers[i]);
            }
            i += 1;
        }
        None
    }
}

} // verus!
