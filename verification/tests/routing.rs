use pihole_api::error::{not_found, unauthorized, Error};
use pihole_api::path::RequestPath;
use pihole_api::route::{select, Handler, Method, Route};
use pihole_api::web::routes;

#[test]
fn errors_have_their_status() {
    assert_eq!(Error::NotFound.status(), 404);
    assert_eq!(Error::Unauthorized.status(), 401);
}

#[test]
fn error_handlers_give_their_error() {
    assert_eq!(not_found(), Error::NotFound);
    assert_eq!(unauthorized(), Error::Unauthorized);
}

#[test]
fn exact_route_matches_its_path_only() {
    let route = Route::exact(Method::Get, "/stats/summary", Handler::External(0));
    assert!(route.matches(Method::Get, &RequestPath::parse("/stats/summary")));
    assert!(route.matches(Method::Get, &RequestPath::parse("stats//summary/")));
    assert!(!route.matches(Method::Get, &RequestPath::parse("/stats")));
    assert!(!route.matches(Method::Get, &RequestPath::parse("/stats/summary/x")));
    assert!(!route.matches(Method::Post, &RequestPath::parse("/stats/summary")));
}

#[test]
fn nested_route_matches_below_its_prefix_only() {
    let route = Route::nested(Method::Get, "/admin", Handler::Asset);
    assert!(route.matches(Method::Get, &RequestPath::parse("/admin/a")));
    assert!(route.matches(Method::Get, &RequestPath::parse("/admin/a/b/c")));
    assert!(!route.matches(Method::Get, &RequestPath::parse("/admin")));
    assert!(!route.matches(Method::Get, &RequestPath::parse("/other/a")));
    assert!(!route.matches(Method::Delete, &RequestPath::parse("/admin/a")));
}

#[test]
fn route_getters_give_what_was_set() {
    let route = Route::nested(Method::Put, "/a/b", Handler::External(7));
    assert_eq!(route.method(), Method::Put);
    assert_eq!(route.handler(), Handler::External(7));
    assert!(route.is_wildcard());
    assert_eq!(route.pattern().names(), vec!["a", "b"]);
    let route = Route::exact(Method::Get, "/", Handler::Index);
    assert!(!route.is_wildcard());
    assert_eq!(route.pattern().len(), 0);
}

#[test]
fn mount_puts_the_base_in_front() {
    let route = Route::exact(Method::Get, "/stats/summary", Handler::External(3)).mount("/admin/api");
    assert_eq!(route.pattern().names(), vec!["admin", "api", "stats", "summary"]);
    assert_eq!(route.method(), Method::Get);
    assert_eq!(route.handler(), Handler::External(3));
    assert!(!route.is_wildcard());
    let route = Route::nested(Method::Get, "/", Handler::Asset).mount("/admin");
    assert_eq!(route.pattern().names(), vec!["admin"]);
    assert!(route.is_wildcard());
}

#[test]
fn web_interface_has_two_routes() {
    let routes = routes();
    assert_eq!(routes.len(), 2);
    assert_eq!(routes[0].handler(), Handler::Index);
    assert!(!routes[0].is_wildcard());
    assert_eq!(routes[0].method(), Method::Get);
    assert_eq!(routes[0].pattern().len(), 0);
    assert_eq!(routes[1].handler(), Handler::Asset);
    assert!(routes[1].is_wildcard());
    assert_eq!(routes[1].method(), Method::Get);
    assert_eq!(routes[1].pattern().len(), 0);
}

#[test]
fn select_takes_the_first_exact_match() {
    let routes = vec![
        Route::exact(Method::Get, "/a", Handler::External(0)),
        Route::exact(Method::Get, "/b", Handler::External(1)),
        Route::exact(Method::Get, "/b", Handler::External(2)),
    ];
    assert_eq!(select(&routes, Method::Get, &RequestPath::parse("/b")), Some(1));
    assert_eq!(select(&routes, Method::Get, &RequestPath::parse("/a")), Some(0));
    assert_eq!(select(&routes, Method::Get, &RequestPath::parse("/c")), None);
    assert_eq!(select(&routes, Method::Post, &RequestPath::parse("/a")), None);
}

#[test]
fn select_prefers_exact_over_wildcard_in_either_order() {
    let wildcard_first = vec![
        Route::nested(Method::Get, "/admin", Handler::Asset),
        Route::exact(Method::Get, "/admin/api/x", Handler::External(9)),
    ];
    let exact_first = vec![
        Route::exact(Method::Get, "/admin/api/x", Handler::External(9)),
        Route::nested(Method::Get, "/admin", Handler::Asset),
    ];
    let path = RequestPath::parse("/admin/api/x");
    assert_eq!(select(&wildcard_first, Method::Get, &path), Some(1));
    assert_eq!(select(&exact_first, Method::Get, &path), Some(0));
    let other = RequestPath::parse("/admin/api/y");
    assert_eq!(select(&wildcard_first, Method::Get, &other), Some(0));
    assert_eq!(select(&exact_first, Method::Get, &other), Some(1));
}

#[test]
fn select_takes_the_first_wildcard_match() {
    let routes = vec![
        Route::nested(Method::Get, "/a/b", Handler::External(0)),
        Route::nested(Method::Get, "/a", Handler::External(1)),
    ];
    assert_eq!(select(&routes, Method::Get, &RequestPath::parse("/a/b/c")), Some(0));
    assert_eq!(select(&routes, Method::Get, &RequestPath::parse("/a/b")), Some(1));
    assert_eq!(select(&routes, Method::Get, &RequestPath::parse("/a")), None);
}

#[test]
fn select_in_an_empty_table_finds_nothing() {
    let routes: Vec<Route> = Vec::new();
    assert_eq!(select(&routes, Method::Get, &RequestPath::parse("/")), None);
}
