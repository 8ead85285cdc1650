//! The web interface: which file each of its two endpoints serves.

use vstd::prelude::*;
use vstd::string::StringExecFns;

use crate::error::{not_found, Error};
use crate::path::{
    confined, dot, dot_dot, lemma_scan_run, scan, segments, stays_below, RequestPath,
};
use crate::route::{table_view, Handler, Method, Route, RouteView};

verus! {

/// The directory that holds the files of the web interface, relative to
/// the working directory.
pub open spec fn static_root() -> Seq<char> {
    "static"@
}

/// The file that is served as the index page.
pub open spec fn index_file() -> Seq<char> {
    "static/index.html"@
}

/// The file that the segments `segs`, taken below the web interface, name,
/// if they name one below the static root.
pub open spec fn asset_file(segs: Seq<Seq<char>>) -> Option<Seq<char>> {
    confined(static_root(), segs)
}

/// The index page lies below the static root: its path is the segment
/// `static` and then the segment `index.html`.
pub proof fn lemma_index_stays_below()
    ensures
        segments(static_root()) == seq!["static"@],
        segments(index_file()) == seq!["static"@, "index.html"@],
        stays_below(static_root(), index_file()),
{
    reveal_strlit("static");
    reveal_strlit("index.html");
    reveal_strlit("static/index.html");
    let none = Seq::<char>::empty();
    assert(scan(none) == (Seq::<Seq<char>>::empty(), none));
    lemma_scan_run(none, "static"@);
    assert(none + "static"@ =~= "static"@);
    assert(segments(static_root()) =~= seq!["static"@]);
    let stem = "static"@.push('/');
    assert(stem.drop_last() =~= "static"@);
    lemma_scan_run(stem, "index.html"@);
    assert(index_file() =~= stem + "index.html"@);
    assert(none + "index.html"@ =~= "index.html"@);
    assert(segments(index_file()) =~= seq!["static"@, "index.html"@]);
    assert(segments(index_file()).subrange(0, 1) =~= segments(static_root()));
    assert("index.html"@ != dot() && "index.html"@ != dot_dot());
}

/// The routes of the web interface, relative to its mount point: the
/// mount point itself leads to the index page, and everything nested under
/// it to a file.
pub open spec fn ui_table() -> Seq<RouteView> {
    seq![
        RouteView {
            method: Method::Get,
            segments: Seq::empty(),
            wildcard: false,
            handler: Handler::Index,
        },
        RouteView {
            method: Method::Get,
            segments: Seq::empty(),
            wildcard: true,
            handler: Handler::Asset,
        },
    ]
}

/// The routes of the web interface, relative to its mount point.
pub fn routes() -> (routes: Vec<Route>)
    ensures
        table_view(routes@) == ui_table(),
{
    proof {
        reveal_strlit("/");
        reveal_with_fuel(scan, 2);
        assert("/"@ =~= seq!['/']);
        assert(seq!['/'].drop_last() =~= Seq::<char>::empty());
        assert(segments("/"@) =~= Seq::<Seq<char>>::empty());
    }
    let mut routes: Vec<Route> = Vec::new();
    routes.push(Route::exact(Method::Get, "/", Handler::Index));
    routes.push(Route::nested(Method::Get, "/", Handler::Asset));
    routes
}

/// The file to serve for the index page: always the same one.
pub fn web_interface_index() -> (file: String)
    ensures
        file@ == index_file(),
{
    String::from_str("static/index.html")
}

/// The file to serve for the path `path` below the web interface. There
/// is none where the path climbs above the static root, nor where it ends
/// at the root itself.
pub fn web_interface(path: &RequestPath) -> (file: Option<String>)
    ensures
        match file {
            Some(f) => asset_file(path@) == Some(f@) && stays_below(static_root(), f@),
            None => asset_file(path@) is None,
        },
{
    path.file_below("static")
}

/// What looking for `file` gives on a disk that holds `disk`, the bytes of
/// each file by its path.
pub open spec fn found_on(disk: Map<Seq<char>, Seq<u8>>, file: Seq<char>) -> Option<Seq<u8>> {
    if disk.dom().contains(file) {
        Some(disk[file])
    } else {
        None
    }
}

/// What looking for a file gave, as the contracts see it.
pub open spec fn found_view(found: Option<Vec<u8>>) -> Option<Seq<u8>> {
    match found {
        Some(bytes) => Some(bytes@),
        None => None,
    }
}

/// An answer to a request for a file, as the contracts see it.
pub open spec fn reply_view(reply: Result<Vec<u8>, Error>) -> Result<Seq<u8>, Error> {
    match reply {
        Ok(bytes) => Ok(bytes@),
        Err(error) => Err(error),
    }
}

/// The answer to a request for a file, given what looking for it gave.
pub open spec fn reply_of(found: Option<Seq<u8>>) -> Result<Seq<u8>, Error> {
    match found {
        Some(bytes) => Ok(bytes),
        None => Err(Error::NotFound),
    }
}

/// The answer to a request for a file, once the file has been looked for:
/// its bytes as they were read, or not found where there was no such file.
pub fn file_reply(found: Option<Vec<u8>>) -> (reply: Result<Vec<u8>, Error>)
    ensures
        match found {
            Some(bytes) => reply == Ok::<Vec<u8>, Error>(bytes),
            None => reply == Err::<Vec<u8>, Error>(Error::NotFound),
        },
        reply_view(reply) == reply_of(found_view(found)),
{
    match found {
        Some(bytes) => Ok(bytes),
        None => Err(not_found()),
    }
}

} // verus!
