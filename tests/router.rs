use guide::chain::{chain_outcome_of, HandlerOutcome};
use guide::{dispatch_step, Method, Resolution, Router, RouterError};

struct DummyController;

struct DummySecondController;

#[test]
fn test_handle_options_post() {
    let mut router = Router::new();
    router.link(DummyController);
    router.post("/", "handler");
    let allowed = router.handle_options("/");
    assert_eq!(allowed, vec![Method::Post]);
}

#[test]
fn test_handle_options_get_head() {
    let mut router = Router::new();
    router.link(DummySecondController);
    router.get("/", "anys");
    let allowed = router.handle_options("/");
    assert_eq!(allowed, vec![Method::Get, Method::Head]);
}

#[test]
fn test_not_allowed_method() {
    let mut router = Router::new();
    router.link(DummyController);
    router.post("/post", "someone");
    router.get("/post/", "another_route");
    match router.recognize(&Method::Get, "/post") {
        Ok(_) => {
            panic!();
        }
        Err(e) => {
            assert_eq!(RouterError::MethodNotAllowed, e);
        }
    }
}

#[test]
fn test_handle_any_ok() {
    let mut router = Router::new();
    router.link(DummySecondController);
    router.post("/post", "anys");
    router.any("/post", "anys");
    router.put("/post", "anys");
    router.any("/get", "another");

    assert!(router.recognize(&Method::Get, "/post").is_ok());
    assert!(router.recognize(&Method::Get, "/get").is_ok());
}

#[test]
fn test_request() {
    let mut router = Router::new();
    router.link(DummyController);
    router.post("/post", "handler");
    router.get("/post", "someone");

    assert!(router.recognize(&Method::Post, "/post").is_ok());
    assert!(router.recognize(&Method::Get, "/post").is_ok());
    assert!(router.recognize(&Method::Put, "/post").is_err());
    assert!(router.recognize(&Method::Get, "/post/").is_err());
}

#[test]
fn test_not_found() {
    let mut router = Router::new();
    router.link(DummyController);

    router.put("/put", "handler");
    match router.recognize(&Method::Patch, "/patch") {
        Ok(_) => {
            panic!();
        }
        Err(e) => {
            assert_eq!(RouterError::NotFound, e);
        }
    }
}

#[test]
#[should_panic]
fn test_same_route_id() {
    let mut router: Router<DummyController> = Router::new();
    router.put("/put", "my_route_id");
    if !router.can_bind("my_route_id", "/get") {
        panic!("Duplicate route_id: my_route_id");
    }
    router.get("/get", "my_route_id");
}

#[test]
fn same_route_id_same_pattern_is_allowed() {
    let mut router: Router<DummyController> = Router::new();
    router.put("/put", "my_route_id");
    assert!(router.can_bind("my_route_id", "/put"));
    router.get("/put", "my_route_id");
    assert!(!router.can_bind("my_route_id", "/other"));
    assert_eq!(router.route_map().get("my_route_id"), Some("/put".to_string()));
}

#[test]
fn resolved_route_carries_params() {
    let mut router: Router<DummyController> = Router::new();
    router.get("/hi/:everybody", "someone");
    let found = router.recognize(&Method::Get, "/hi/cool").ok().unwrap();
    assert_eq!(found.route_id, "someone");
    assert_eq!(found.params.find("everybody"), Some("cool".to_string()));
    assert_eq!(found.params.len(), 1);
}

#[test]
fn wildcard_covers_other_method() {
    let mut router: Router<DummyController> = Router::new();
    router.post("/hello", "another");
    router.any("/hello", "anys");
    let found = router.recognize(&Method::Get, "/hello").ok().unwrap();
    assert_eq!(found.route_id, "anys");
    let found = router.recognize(&Method::Post, "/hello").ok().unwrap();
    assert_eq!(found.route_id, "another");
}

#[test]
fn missing_trailing_slash_redirects() {
    let mut router: Router<DummyController> = Router::new();
    router.get("/a/b", "ab");
    router.get("/c/d/", "cd");
    match router.handle_method(Method::Get, "/a/b/") {
        Resolution::Redirect { path } => assert_eq!(path, "/a/b"),
        _ => panic!(),
    }
    match router.handle_method(Method::Get, "/c/d") {
        Resolution::Redirect { path } => assert_eq!(path, "/c/d/"),
        _ => panic!(),
    }
    match router.handle_method(Method::Get, "/x") {
        Resolution::Failed { error } => assert_eq!(error, RouterError::NotFound),
        _ => panic!(),
    }
}

#[test]
fn method_not_allowed_is_not_redirected() {
    let mut router: Router<DummyController> = Router::new();
    router.post("/post", "someone");
    router.get("/post/", "another_route");
    match router.handle_method(Method::Get, "/post") {
        Resolution::Failed { error } => assert_eq!(error, RouterError::MethodNotAllowed),
        _ => panic!(),
    }
}

#[test]
fn options_request_lists_methods() {
    let mut router: Router<DummyController> = Router::new();
    router.get("/items", "list");
    router.delete("/items", "clear");
    match router.handle_method(Method::Options, "/items") {
        Resolution::Allow { methods } => {
            assert_eq!(methods, vec![Method::Get, Method::Delete, Method::Head])
        }
        _ => panic!(),
    }
}

#[test]
fn head_falls_back_to_get() {
    let mut router: Router<DummyController> = Router::new();
    router.get("/page", "page");
    match router.handle_method(Method::Head, "/page") {
        Resolution::Found { found, method } => {
            assert_eq!(found.route_id, "page");
            assert_eq!(method, Method::Get);
        }
        _ => panic!(),
    }
}

#[test]
fn resolution_repeats() {
    let mut router: Router<DummyController> = Router::new();
    router.get("/a/:x", "a");
    for _ in 0..3 {
        let found = router.recognize(&Method::Get, "/a/1").ok().unwrap();
        assert_eq!(found.route_id, "a");
        assert_eq!(found.params.find("x"), Some("1".to_string()));
    }
}

#[test]
fn linked_handlers_keep_order() {
    let mut router: Router<&'static str> = Router::new();
    router.link("first");
    router.link("second");
    assert_eq!(router.handler_count(), 2);
    assert_eq!(*router.handler(0), "first");
    assert_eq!(*router.handler(1), "second");
}

#[test]
fn chain_pass_then_answer() {
    let outcomes = vec![HandlerOutcome::Pass, HandlerOutcome::Handled("second")];
    assert_eq!(chain_outcome_of(outcomes), Ok("second"));
    let outcomes = vec![
        HandlerOutcome::Failed(RouterError::NextMiddleware),
        HandlerOutcome::Handled("second"),
        HandlerOutcome::Handled("third"),
    ];
    assert_eq!(chain_outcome_of(outcomes), Ok("second"));
}

#[test]
fn chain_failures() {
    let outcomes: Vec<HandlerOutcome<&str>> = vec![HandlerOutcome::Pass, HandlerOutcome::Pass];
    assert_eq!(chain_outcome_of(outcomes), Err(RouterError::NotFound));
    let outcomes = vec![
        HandlerOutcome::Failed(RouterError::BadRequest),
        HandlerOutcome::Handled("late"),
    ];
    assert_eq!(chain_outcome_of(outcomes), Err(RouterError::BadRequest));
    assert!(dispatch_step::<&str>(HandlerOutcome::Pass).is_none());
    assert_eq!(
        dispatch_step::<&str>(HandlerOutcome::Failed(RouterError::TrailingSlash)),
        Some(Err(RouterError::TrailingSlash))
    );
    assert_eq!(dispatch_step(HandlerOutcome::Handled(7)), Some(Ok(7)));
}

#[test]
fn error_descriptions() {
    assert_eq!(RouterError::MethodNotAllowed.description(), "Method Not Allowed");
    assert_eq!(RouterError::NotFound.description(), "No matching route found.");
    assert_eq!(RouterError::TrailingSlash.description(), "The request had a trailing slash.");
    assert_eq!(
        RouterError::NextMiddleware.description(),
        "This is middleware not support this request"
    );
    assert_eq!(RouterError::BadRequest.description(), "This is not valid request");
}

#[test]
fn non_ascii_path_is_not_found() {
    let mut router: Router<DummyController> = Router::new();
    router.get("/:a/b", "ab");
    assert_eq!(router.recognize(&Method::Get, "/x\u{e9}/b").err(), Some(RouterError::NotFound));
    assert_eq!(router.recognize(&Method::Get, "/x\u{0}/b").err(), Some(RouterError::NotFound));
    assert!(router.handle_options("/x\u{e9}/b").is_empty());
    assert_eq!(router.recognize(&Method::Get, "/x/b").ok().unwrap().route_id, "ab");
}

#[test]
fn new_router_finds_nothing() {
    let router: Router<DummyController> = Router::new();
    assert_eq!(router.recognize(&Method::Get, "/").err(), Some(RouterError::NotFound));
}

#[test]
fn reregistered_pattern_takes_over_matcher() {
    let mut router: Router<DummyController> = Router::new();
    router.get("/a/:x", "ax");
    router.get("/a/:y", "ay");
    router.post("/a/:x", "post_ax");
    let found = router.recognize(&Method::Post, "/a/1").ok().unwrap();
    assert_eq!(found.route_id, "post_ax");
    assert_eq!(found.params.find("x"), Some("1".to_string()));
}

#[test]
fn non_ascii_pattern_can_be_registered() {
    let mut router: Router<DummyController> = Router::new();
    router.get("/caf\u{e9}", "cafe");
    router.get("/tea", "tea");
    assert_eq!(router.recognize(&Method::Get, "/tea").ok().unwrap().route_id, "tea");
}
