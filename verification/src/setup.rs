//! Server setup: the one place where a server is put together, and the
//! two ways to call it.

use std::collections::HashMap;
use vstd::prelude::*;
use vstd::string::StringExecFns;

use crate::context::{AuthData, ConfigurationMode, ConnectionDescriptor, SharedContext};
use crate::error::{not_found, unauthorized, Error};
use crate::key::{base64_text, generate_key, is_generated_key, test_key, test_secret};
use crate::path::{depth, escapes, lemma_confined_refuses, lemma_scan_run, scan, segments};
use crate::route::{
    first_match, lemma_first_match, selected, table_view, Handler, Method, Route, RouteView,
};
use crate::server::{
    answer, catcher_for, decide, lemma_unmatched_is_not_found, mounted_table, Decision, Server,
};
use crate::web::{asset_file, found_on, index_file, reply_of, routes, static_root, ui_table};

verus! {

/// The mount point of the web interface.
pub open spec fn ui_mount() -> Seq<char> {
    "/admin"@
}

/// The mount point of the API.
pub open spec fn api_mount() -> Seq<char> {
    "/admin/api"@
}

/// The segments of the mount point of the web interface.
pub open spec fn ui_base() -> Seq<Seq<char>> {
    seq!["admin"@]
}

/// The segments of the mount point of the API.
pub open spec fn api_base() -> Seq<Seq<char>> {
    seq!["admin"@, "api"@]
}

/// The socket of the backend daemon.
pub open spec fn live_socket() -> Seq<char> {
    "/var/run/pihole/FTL.sock"@
}

/// The route table of a composed server whose API routes are `api`: the
/// web interface first, then the API.
pub open spec fn composed_table(api: Seq<RouteView>) -> Seq<RouteView> {
    mounted_table(ui_table(), segments(ui_mount())) + mounted_table(api, segments(api_mount()))
}

/// The error handlers of a composed server.
pub open spec fn composed_catchers() -> Seq<Error> {
    seq![Error::NotFound, Error::Unauthorized]
}

/// The web interface is mounted at the one segment `admin`, the API at
/// the two segments `admin` and `api`.
pub proof fn lemma_mount_points()
    ensures
        segments(ui_mount()) == ui_base(),
        segments(api_mount()) == api_base(),
{
    reveal_strlit("/admin");
    reveal_strlit("/admin/api");
    reveal_strlit("admin");
    reveal_strlit("api");
    let slash = seq!['/'];
    assert(scan(slash) == (Seq::<Seq<char>>::empty(), Seq::<char>::empty())) by {
        reveal_with_fuel(scan, 2);
        assert(slash.drop_last() =~= Seq::<char>::empty());
    }
    lemma_scan_run(slash, "admin"@);
    assert(ui_mount() =~= slash + "admin"@);
    assert(Seq::<char>::empty() + "admin"@ =~= "admin"@);
    assert(segments(ui_mount()) =~= ui_base());
    let upper = ui_mount().push('/');
    assert(upper.drop_last() =~= ui_mount());
    assert(scan(upper) == (ui_base(), Seq::<char>::empty()));
    lemma_scan_run(upper, "api"@);
    assert(api_mount() =~= upper + "api"@);
    assert(Seq::<char>::empty() + "api"@ =~= "api"@);
    assert(segments(api_mount()) =~= api_base());
}

/// The first two routes of a composed server are those of the web
/// interface, the others are the API routes below their mount point; and
/// every route's pattern begins with `admin`.
pub proof fn lemma_composed_table(api: Seq<RouteView>)
    ensures
        composed_table(api).len() == api.len() + 2,
        composed_table(api)[0] == (RouteView {
            method: Method::Get,
            segments: ui_base(),
            wildcard: false,
            handler: Handler::Index,
        }),
        composed_table(api)[1] == (RouteView {
            method: Method::Get,
            segments: ui_base(),
            wildcard: true,
            handler: Handler::Asset,
        }),
        forall|i: int|
            0 <= i < api.len() ==> #[trigger] composed_table(api)[i + 2] == api[i].mounted(
                api_base(),
            ),
        forall|i: int|
            0 <= i < composed_table(api).len() ==> (#[trigger] composed_table(api)[i]).segments.len()
                > 0 && composed_table(api)[i].segments[0] == "admin"@,
{
    lemma_mount_points();
    let ui = mounted_table(ui_table(), segments(ui_mount()));
    assert(ui.len() == 2);
    assert(ui[0].segments =~= ui_base());
    assert(ui[1].segments =~= ui_base());
    assert forall|i: int| 0 <= i < api.len() implies #[trigger] composed_table(api)[i + 2]
        == api[i].mounted(api_base()) by {
        assert(composed_table(api)[i + 2] == mounted_table(api, segments(api_mount()))[i]);
    }
    assert forall|i: int| 0 <= i < composed_table(api).len() implies (#[trigger] composed_table(
        api,
    )[i]).segments.len() > 0 && composed_table(api)[i].segments[0] == "admin"@ by {
        if i >= 2 {
            assert(composed_table(api)[(i - 2) + 2] == api[i - 2].mounted(api_base()));
        }
    }
}

/// A composed server answers every request whose path does not begin with
/// `admin` with not found, whatever the method and the API routes.
pub proof fn lemma_outside_admin_is_not_found(
    api: Seq<RouteView>,
    method: Method,
    segs: Seq<Seq<char>>,
)
    requires
        segs.len() == 0 || segs[0] != "admin"@,
    ensures
        decide(composed_table(api), method, segs) == Decision::Fail(Error::NotFound),
{
    let table = composed_table(api);
    lemma_composed_table(api);
    assert forall|i: int| 0 <= i < table.len() implies !#[trigger] table[i].matches(
        method,
        segs,
    ) by {
        if table[i].matches(method, segs) {
            assert(table[i].segments[0] == "admin"@);
            if table[i].wildcard {
                assert(segs.subrange(0, table[i].segments.len() as int)[0] == segs[0]);
            }
        }
    }
    lemma_unmatched_is_not_found(table, method, segs);
}

/// A composed server answers `GET /admin` with the index page, whatever
/// the API routes.
pub proof fn lemma_index_is_served(api: Seq<RouteView>)
    ensures
        decide(composed_table(api), Method::Get, ui_base()) == Decision::Open(index_file()),
{
    lemma_composed_table(api);
}

/// A composed server serves every `GET` request below `/admin`: the first
/// API route that matches it exactly, and where there is none, the file
/// that the rest of the path names below the static root, or not found
/// where it names none.
pub proof fn lemma_web_interface_is_covered(api: Seq<RouteView>, rest: Seq<Seq<char>>)
    requires
        rest.len() > 0,
    ensures
        selected(composed_table(api), Method::Get, ui_base() + rest) is Some,
        (forall|i: int|
            0 <= i < api.len() && !api[i].wildcard ==> !(#[trigger] api[i].mounted(
                api_base(),
            )).matches(Method::Get, ui_base() + rest)) ==> decide(
            composed_table(api),
            Method::Get,
            ui_base() + rest,
        ) == match asset_file(rest) {
            Some(file) => Decision::Open(file),
            None => Decision::Fail(Error::NotFound),
        },
{
    let table = composed_table(api);
    let segs = ui_base() + rest;
    lemma_composed_table(api);
    lemma_first_match(table, Method::Get, segs, false, 0);
    lemma_first_match(table, Method::Get, segs, true, 0);
    assert(segs.subrange(0, 1) =~= ui_base());
    assert(table[1].matches(Method::Get, segs));
    assert(segs.skip(1) =~= rest);
    if forall|i: int|
        0 <= i < api.len() && !api[i].wildcard ==> !(#[trigger] api[i].mounted(
            api_base(),
        )).matches(Method::Get, segs) {
        if first_match(table, Method::Get, segs, false, 0) is Some {
            let i = first_match(table, Method::Get, segs, false, 0)->0;
            assert(i >= 2);
            assert(table[(i - 2) + 2] == api[i - 2].mounted(api_base()));
        }
    }
}

/// A composed server answers `GET /admin` with the bytes of the index
/// page where the disk holds it, and with not found where it does not.
pub proof fn lemma_index_answer(api: Seq<RouteView>, disk: Map<Seq<char>, Seq<u8>>)
    ensures
        answer(composed_table(api), disk, Method::Get, ui_base()) == Some(
            if disk.dom().contains(index_file()) {
                Ok::<Seq<u8>, Error>(disk[index_file()])
            } else {
                Err::<Seq<u8>, Error>(Error::NotFound)
            },
        ),
{
    lemma_index_is_served(api);
}

/// The answer to `GET /admin` depends on the disk through the index page
/// alone: as long as that file is unchanged, so is the answer.
pub proof fn lemma_index_answer_is_stable(
    api: Seq<RouteView>,
    before: Map<Seq<char>, Seq<u8>>,
    after: Map<Seq<char>, Seq<u8>>,
)
    requires
        found_on(before, index_file()) == found_on(after, index_file()),
    ensures
        answer(composed_table(api), before, Method::Get, ui_base()) == answer(
            composed_table(api),
            after,
            Method::Get,
            ui_base(),
        ),
{
    lemma_index_is_served(api);
}

/// A composed server answers a `GET` request below `/admin` that no API
/// route matches exactly with the bytes of the file that the rest of the
/// path names below the static root, where the disk holds it. It answers
/// with not found where the disk does not hold it, and where the rest of
/// the path climbs above the static root or ends at it: then no file is
/// looked for at all.
pub proof fn lemma_asset_answer(
    api: Seq<RouteView>,
    disk: Map<Seq<char>, Seq<u8>>,
    rest: Seq<Seq<char>>,
)
    requires
        rest.len() > 0,
        forall|i: int|
            0 <= i < api.len() && !api[i].wildcard ==> !(#[trigger] api[i].mounted(
                api_base(),
            )).matches(Method::Get, ui_base() + rest),
    ensures
        answer(composed_table(api), disk, Method::Get, ui_base() + rest) == Some(
            match asset_file(rest) {
                Some(file) => reply_of(found_on(disk, file)),
                None => Err::<Seq<u8>, Error>(Error::NotFound),
            },
        ),
        escapes(rest) || depth(rest) == 0 ==> decide(
            composed_table(api),
            Method::Get,
            ui_base() + rest,
        ) == Decision::Fail(Error::NotFound),
{
    lemma_web_interface_is_covered(api, rest);
    lemma_confined_refuses(static_root(), rest);
}

/// A context that holds the test key lets in the caller who presents the
/// test key, and no other.
pub proof fn lemma_test_key_is_admitted_alone(context: SharedContext, presented: Option<Seq<char>>)
    requires
        context.auth().key() == base64_text(test_secret()),
    ensures
        context.admits(presented) <==> presented == Some(base64_text(test_secret())),
{
}

/// A composed server has an error handler for the statuses 404 and 401,
/// and for no other.
pub proof fn lemma_composed_catchers(status: u16)
    ensures
        catcher_for(composed_catchers(), status) == if status == 404 {
            Some(Error::NotFound)
        } else if status == 401 {
            Some(Error::Unauthorized)
        } else {
            None
        },
{
    assert(composed_catchers()[0] == Error::NotFound);
    assert(composed_catchers()[1] == Error::Unauthorized);
}

/// Puts a server together: the three shared values into its context, the
/// web interface below `/admin`, the API routes `api` below `/admin/api`,
/// and the handlers for not found and unauthorized.
pub fn setup(
    connection: ConnectionDescriptor,
    config: ConfigurationMode,
    api_key: String,
    api: Vec<Route>,
) -> (server: Server)
    ensures
        *server.context().connection() == connection,
        *server.context().config() == config,
        server.context().auth().key() == api_key@,
        server.table() == composed_table(table_view(api@)),
        server.catchers() == composed_catchers(),
{
    let context = SharedContext::new(connection, config, AuthData::new(api_key));
    let mut catchers: Vec<Error> = Vec::new();
    catchers.push(not_found());
    catchers.push(unauthorized());
    Server::new(context).mount("/admin", routes()).mount("/admin/api", api).catch(catchers)
}

/// The server that runs normally: it reaches the backend over its socket,
/// reads the configuration from disk, and has a fresh key.
pub fn start(api: Vec<Route>) -> (server: Server)
    ensures
        server.context().connection() matches ConnectionDescriptor::Live(socket) && socket@
            == live_socket(),
        server.context().config() is Production,
        is_generated_key(server.context().auth().key()),
        server.table() == composed_table(table_view(api@)),
        server.catchers() == composed_catchers(),
{
    setup(
        ConnectionDescriptor::Live(String::from_str("/var/run/pihole/FTL.sock")),
        ConfigurationMode::Production,
        generate_key(),
        api,
    )
}

/// The server that tests run against: backend and configuration are the
/// fixtures given, and the key is the fixed test key.
pub fn test(
    ftl_data: HashMap<String, Vec<u8>>,
    config_data: HashMap<String, Vec<u8>>,
    api: Vec<Route>,
) -> (server: Server)
    ensures
        *server.context().connection() == ConnectionDescriptor::Fixture(ftl_data),
        *server.context().config() == ConfigurationMode::TestFixture(config_data),
        server.context().auth().key() == base64_text(test_secret()),
        server.table() == composed_table(table_view(api@)),
        server.catchers() == composed_catchers(),
{
    setup(
        ConnectionDescriptor::Fixture(ftl_data),
        ConfigurationMode::TestFixture(config_data),
        test_key(),
        api,
    )
}

} // verus!
