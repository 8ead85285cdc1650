use std::collections::HashMap;

use pihole_api::context::{AuthData, ConfigurationMode, ConnectionDescriptor, SharedContext};
use pihole_api::error::Error;
use pihole_api::key::key_from_number;
use pihole_api::route::{Handler, Method, Route};
use pihole_api::server::{Action, Server};
use pihole_api::setup::{setup, start};
use pihole_api::web::file_reply;

fn api() -> Vec<Route> {
    vec![
        Route::exact(Method::Get, "/stats/summary", Handler::External(0)),
        Route::exact(Method::Get, "/dns/whitelist", Handler::External(1)),
        Route::exact(Method::Post, "/dns/whitelist", Handler::External(2)),
    ]
}

fn empty_test_server() -> Server {
    pihole_api::setup::test(HashMap::new(), HashMap::new(), Vec::new())
}

fn open(file: &str) -> Action {
    Action::Open(file.to_string())
}

#[test]
fn auth_data_matches_its_key_only() {
    let auth = AuthData::new("secret".to_string());
    assert!(auth.key_matches("secret"));
    assert!(!auth.key_matches("secret "));
    assert!(!auth.key_matches("Secret"));
    assert!(!auth.key_matches(""));
}

#[test]
fn context_holds_what_it_was_given() {
    let mut streams = HashMap::new();
    streams.insert("stats".to_string(), vec![1u8, 2, 3]);
    let context = SharedContext::new(
        ConnectionDescriptor::Fixture(streams.clone()),
        ConfigurationMode::Production,
        AuthData::new("k".to_string()),
    );
    assert_eq!(*context.connection(), ConnectionDescriptor::Fixture(streams));
    assert_eq!(*context.config(), ConfigurationMode::Production);
    assert!(context.auth().key_matches("k"));
}

#[test]
fn context_authorizes_the_secret_only() {
    let context = SharedContext::new(
        ConnectionDescriptor::Live("/tmp/socket".to_string()),
        ConfigurationMode::Production,
        AuthData::new("abc".to_string()),
    );
    assert_eq!(context.authorize(Some("abc")), Ok(()));
    assert_eq!(context.authorize(Some("abd")), Err(Error::Unauthorized));
    assert_eq!(context.authorize(Some("")), Err(Error::Unauthorized));
    assert_eq!(context.authorize(None), Err(Error::Unauthorized));
}

#[test]
fn new_server_is_empty() {
    let context = SharedContext::new(
        ConnectionDescriptor::Live("/tmp/socket".to_string()),
        ConfigurationMode::Production,
        AuthData::new("abc".to_string()),
    );
    let server = Server::new(context);
    assert_eq!(server.route_count(), 0);
    assert_eq!(server.catcher(404), None);
    assert_eq!(server.catcher(401), None);
    assert_eq!(server.dispatch(Method::Get, "/admin"), Action::Fail(Error::NotFound));
}

#[test]
fn mount_and_catch_extend_the_server() {
    let context = SharedContext::new(
        ConnectionDescriptor::Live("/tmp/socket".to_string()),
        ConfigurationMode::Production,
        AuthData::new("abc".to_string()),
    );
    let server = Server::new(context)
        .mount("/x", vec![Route::exact(Method::Get, "/y", Handler::External(5))])
        .catch(vec![Error::Unauthorized]);
    assert_eq!(server.route_count(), 1);
    assert_eq!(server.dispatch(Method::Get, "/x/y"), Action::Call(5));
    assert_eq!(server.dispatch(Method::Get, "/y"), Action::Fail(Error::NotFound));
    assert_eq!(server.catcher(401), Some(Error::Unauthorized));
    assert_eq!(server.catcher(404), None);
    assert!(server.context().auth().key_matches("abc"));
}

#[test]
fn setup_keeps_the_three_shared_values() {
    let mut files = HashMap::new();
    files.insert("setupVars.conf".to_string(), b"A=1\n".to_vec());
    let server = setup(
        ConnectionDescriptor::Live("/run/daemon.sock".to_string()),
        ConfigurationMode::TestFixture(files.clone()),
        "the key".to_string(),
        api(),
    );
    assert_eq!(
        *server.context().connection(),
        ConnectionDescriptor::Live("/run/daemon.sock".to_string())
    );
    assert_eq!(*server.context().config(), ConfigurationMode::TestFixture(files));
    assert!(server.context().auth().key_matches("the key"));
    assert_eq!(server.context().authorize(Some("the key")), Ok(()));
    assert_eq!(server.context().authorize(Some("another")), Err(Error::Unauthorized));
}

#[test]
fn setup_mounts_both_groups() {
    let server = setup(
        ConnectionDescriptor::Live("/run/daemon.sock".to_string()),
        ConfigurationMode::Production,
        "k".to_string(),
        api(),
    );
    assert_eq!(server.route_count(), 5);
    assert_eq!(server.dispatch(Method::Get, "/admin"), open("static/index.html"));
    assert_eq!(server.dispatch(Method::Get, "/admin/"), open("static/index.html"));
    assert_eq!(server.dispatch(Method::Get, "/admin/css/site.css"), open("static/css/site.css"));
    assert_eq!(server.dispatch(Method::Get, "/admin/api/stats/summary"), Action::Call(0));
    assert_eq!(server.dispatch(Method::Get, "/admin/api/dns/whitelist"), Action::Call(1));
    assert_eq!(server.dispatch(Method::Post, "/admin/api/dns/whitelist"), Action::Call(2));
}

#[test]
fn setup_registers_both_error_handlers() {
    let server = setup(
        ConnectionDescriptor::Live("/run/daemon.sock".to_string()),
        ConfigurationMode::Production,
        "k".to_string(),
        Vec::new(),
    );
    assert_eq!(server.catcher(404), Some(Error::NotFound));
    assert_eq!(server.catcher(401), Some(Error::Unauthorized));
    assert_eq!(server.catcher(500), None);
    assert_eq!(server.catcher(200), None);
}

#[test]
fn request_outside_the_mounts_is_not_found() {
    let server = setup(
        ConnectionDescriptor::Live("/run/daemon.sock".to_string()),
        ConfigurationMode::Production,
        "k".to_string(),
        api(),
    );
    assert_eq!(server.dispatch(Method::Get, "/"), Action::Fail(Error::NotFound));
    assert_eq!(server.dispatch(Method::Get, ""), Action::Fail(Error::NotFound));
    assert_eq!(server.dispatch(Method::Get, "/index.html"), Action::Fail(Error::NotFound));
    assert_eq!(server.dispatch(Method::Get, "/administrator"), Action::Fail(Error::NotFound));
    assert_eq!(server.dispatch(Method::Get, "/api/stats/summary"), Action::Fail(Error::NotFound));
    assert_eq!(server.dispatch(Method::Get, "/../admin"), Action::Fail(Error::NotFound));
}

#[test]
fn request_with_another_method_is_not_found() {
    let server = setup(
        ConnectionDescriptor::Live("/run/daemon.sock".to_string()),
        ConfigurationMode::Production,
        "k".to_string(),
        api(),
    );
    assert_eq!(server.dispatch(Method::Post, "/admin"), Action::Fail(Error::NotFound));
    assert_eq!(server.dispatch(Method::Delete, "/admin/css/site.css"), Action::Fail(Error::NotFound));
    assert_eq!(server.dispatch(Method::Put, "/admin/api/stats/summary"), Action::Fail(Error::NotFound));
}

#[test]
fn escaping_path_is_not_found() {
    let server = empty_test_server();
    assert_eq!(server.dispatch(Method::Get, "/admin/../secret.txt"), Action::Fail(Error::NotFound));
    assert_eq!(server.dispatch(Method::Get, "/admin/css/../../secret.txt"), Action::Fail(Error::NotFound));
    assert_eq!(server.dispatch(Method::Get, "/admin/.."), Action::Fail(Error::NotFound));
    assert_eq!(server.dispatch(Method::Get, "/admin/."), Action::Fail(Error::NotFound));
}

#[test]
fn path_that_walks_inside_the_root_is_served() {
    let server = empty_test_server();
    assert_eq!(server.dispatch(Method::Get, "/admin/css/../index.html"), open("static/index.html"));
}

#[test]
fn test_server_holds_the_fixtures() {
    let mut streams = HashMap::new();
    streams.insert("stats".to_string(), vec![9u8, 8, 7]);
    let mut files = HashMap::new();
    files.insert("whitelist".to_string(), b"example.com\n".to_vec());
    let server = pihole_api::setup::test(streams.clone(), files.clone(), api());
    assert_eq!(*server.context().connection(), ConnectionDescriptor::Fixture(streams));
    assert_eq!(*server.context().config(), ConfigurationMode::TestFixture(files));
    assert_eq!(server.route_count(), 5);
    assert_eq!(server.catcher(404), Some(Error::NotFound));
    assert_eq!(server.catcher(401), Some(Error::Unauthorized));
}

#[test]
fn test_server_accepts_the_test_key_only() {
    let server = empty_test_server();
    assert_eq!(server.context().authorize(Some("dGVzdF9rZXk=")), Ok(()));
    assert_eq!(server.context().authorize(Some("test_key")), Err(Error::Unauthorized));
    assert_eq!(server.context().authorize(Some("dGVzdF9rZXk")), Err(Error::Unauthorized));
    assert_eq!(server.context().authorize(Some(&key_from_number(1))), Err(Error::Unauthorized));
    assert_eq!(server.context().authorize(None), Err(Error::Unauthorized));
    assert_eq!(Error::Unauthorized.status(), 401);
}

#[test]
fn empty_test_server_end_to_end() {
    let server = empty_test_server();
    assert_eq!(*server.context().connection(), ConnectionDescriptor::Fixture(HashMap::new()));
    assert_eq!(*server.context().config(), ConfigurationMode::TestFixture(HashMap::new()));
    assert_eq!(server.route_count(), 2);

    let action = server.dispatch(Method::Get, "/admin/api/not/registered");
    assert_eq!(action, open("static/api/not/registered"));
    let reply = file_reply(None);
    assert_eq!(reply, Err(Error::NotFound));
    assert_eq!(reply.unwrap_err().status(), 404);
    assert_eq!(server.catcher(404), Some(Error::NotFound));

    assert_eq!(server.dispatch(Method::Post, "/admin/api/not/registered"), Action::Fail(Error::NotFound));

    let action = server.dispatch(Method::Get, "/admin");
    assert_eq!(action, open("static/index.html"));
    assert_eq!(file_reply(None), Err(Error::NotFound));
}

#[test]
fn index_bytes_are_served_as_read() {
    let server = empty_test_server();
    let page = b"<!doctype html><title>admin</title>".to_vec();
    assert_eq!(server.dispatch(Method::Get, "/admin"), open("static/index.html"));
    assert_eq!(file_reply(Some(page.clone())), Ok(page.clone()));
    assert_eq!(server.dispatch(Method::Get, "/admin"), open("static/index.html"));
    assert_eq!(file_reply(Some(page.clone())), Ok(page));
}

#[test]
fn production_server_uses_socket_disk_and_fresh_key() {
    let server = start(api());
    assert_eq!(
        *server.context().connection(),
        ConnectionDescriptor::Live("/var/run/pihole/FTL.sock".to_string())
    );
    assert_eq!(*server.context().config(), ConfigurationMode::Production);
    assert_eq!(server.route_count(), 5);
    assert_eq!(server.catcher(404), Some(Error::NotFound));
    assert_eq!(server.catcher(401), Some(Error::Unauthorized));
    assert_eq!(server.context().authorize(Some("dGVzdF9rZXk=")), Err(Error::Unauthorized));
    assert_eq!(server.context().authorize(None), Err(Error::Unauthorized));
    assert_eq!(server.dispatch(Method::Get, "/admin/api/stats/summary"), Action::Call(0));
}

#[test]
fn production_servers_have_different_keys() {
    let mut accepted = 0;
    let server = start(Vec::new());
    for n in 0..64u64 {
        if server.context().authorize(Some(&key_from_number(n))).is_ok() {
            accepted += 1;
        }
    }
    assert!(accepted <= 1);
}
