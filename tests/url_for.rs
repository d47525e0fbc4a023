use guide::path::{split_slash_exec, take_base_path, toggle_trailing_slash};
use guide::url_for::{request_base_path, url_path_parts};
use guide::{get_parameter, url_for, url_for_impl, ParamMap, RequestContext, RouteMap};

fn user_bam() -> ParamMap {
    let mut rv = ParamMap::new();
    rv.insert("user".into(), "bam".into());
    rv
}

#[test]
fn test_no_trailing_slash() {
    let mut url: url::Url = "http://localhost/foo/bar/baz".parse().unwrap();
    url_for_impl(&mut url, "/foo/:user", user_bam(), "");
    assert_eq!(url.to_string(), "http://localhost/foo/bam");
}

#[test]
fn test_no_trailing_slash_second() {
    let mut url: url::Url = "http://localhost/foo/bar".parse().unwrap();
    url_for_impl(&mut url, "/foo/:user", user_bam(), "");
    assert_eq!(url.to_string(), "http://localhost/foo/bam");
}

#[test]
fn test_trailing_slash() {
    let mut url: url::Url = "http://localhost/foo/bar/baz".parse().unwrap();
    url_for_impl(&mut url, "/foo/:user/", user_bam(), "");
    assert_eq!(url.to_string(), "http://localhost/foo/bam/");
}

#[test]
fn test_with_mount() {
    let mut url: url::Url = "http://localhost/mounted/foo/bar/wert".parse().unwrap();
    let written = url_for_impl(&mut url, "/foo/:user/", user_bam(), "mounted/");
    assert_eq!(written.path, Some("/mounted/foo/bam/".to_string()));
    assert_eq!(url.to_string(), "http://localhost/mounted/foo/bam/");
}

#[test]
fn test_with_mount_second() {
    let mut url: url::Url = "http://localhost/mounted/foo/bar".parse().unwrap();
    url_for_impl(&mut url, "/foo/:user", user_bam(), "/mounted/");
    assert_eq!(url.to_string(), "http://localhost/mounted/foo/bam");
}

#[test]
fn test_take_base_path() {
    let s = take_base_path("/mounted/foo/bar", "/foo/:biz");
    assert_eq!(s, "mounted/");
}

#[test]
fn base_path_of_identical_paths_is_empty() {
    assert_eq!(take_base_path("/foo/bar", "/foo/bar"), "");
    assert_eq!(take_base_path("/a/b/foo/x", "/foo/x"), "a/b/");
    assert_eq!(take_base_path("/a/b/c/d/e", "/c/d/e"), "a/b/");
    assert_eq!(take_base_path("/m/foo", "/foo"), "m/");
}

#[test]
fn leftover_params_become_query() {
    let mut url: url::Url = "http://localhost/old?q=1#frag".parse().unwrap();
    let mut params = user_bam();
    params.insert("extra".into(), "1".into());
    params.insert("more".into(), "two".into());
    let written = url_for_impl(&mut url, "/foo/:user", params, "");
    assert_eq!(written.path, Some("/foo/bam".to_string()));
    assert_eq!(written.scheme, "http");
    assert_eq!(written.query, Some("extra=1&more=two".to_string()));
    assert_eq!(written.fragment, None);
    assert_eq!(url.to_string(), "http://localhost/foo/bam?extra=1&more=two");
}

#[test]
fn query_and_fragment_are_dropped() {
    let mut url: url::Url = "http://localhost/old?q=1#frag".parse().unwrap();
    url_for_impl(&mut url, "/foo/:user", user_bam(), "");
    assert_eq!(url.to_string(), "http://localhost/foo/bam");
}

#[test]
fn path_parts_and_missing_param() {
    let (segments, rest) = url_path_parts("/foo/:user/*rest", {
        let mut p = user_bam();
        p.insert("rest".into(), "x".into());
        p.insert("q".into(), "1".into());
        p
    }, "api/")
    .unwrap();
    assert_eq!(segments, vec!["api".to_string(), "foo".to_string(), "bam".to_string(), "x".to_string()]);
    assert_eq!(rest.to_vec(), vec![("q".to_string(), "1".to_string())]);
    assert!(url_path_parts("/foo/:user", ParamMap::new(), "").is_none());
}

#[test]
fn url_for_under_mount() {
    let mut routes = RouteMap::new();
    routes.insert("R".into(), "/foo/:user".into());
    let ctx = RequestContext {
        params: ParamMap::new(),
        routes,
        mount: Some(("/mounted/foo/bar".to_string(), "/foo/bar".to_string())),
    };
    assert_eq!(request_base_path(&ctx), "mounted/");
    let url: url::Url = "http://localhost/mounted/foo/bar".parse().unwrap();
    let built = url_for(&ctx, url, "R", user_bam());
    assert_eq!(built.written.path, Some("/mounted/foo/bam".to_string()));
    assert_eq!(built.written.query, None);
    assert_eq!(built.url.to_string(), "http://localhost/mounted/foo/bam");
}

#[test]
fn parameter_lookup_is_total() {
    let mut params = ParamMap::new();
    params.insert("everybody".into(), "cool".into());
    let ctx = RequestContext { params, routes: RouteMap::new(), mount: None };
    assert_eq!(get_parameter(&ctx, "everybody"), "cool");
    assert_eq!(get_parameter(&ctx, "nobody"), "");
    assert_eq!(request_base_path(&ctx), "");
}

#[test]
fn param_map_keeps_order_and_replaces() {
    let mut params = ParamMap::new();
    params.insert("a".into(), "1".into());
    params.insert("b".into(), "2".into());
    params.insert("a".into(), "3".into());
    assert_eq!(
        params.to_vec(),
        vec![("a".to_string(), "3".to_string()), ("b".to_string(), "2".to_string())]
    );
    assert_eq!(params.remove("a"), Some("3".to_string()));
    assert_eq!(params.remove("a"), None);
    assert_eq!(params.len(), 1);
}

#[test]
fn slash_helpers() {
    assert_eq!(toggle_trailing_slash("/a/b"), "/a/b/");
    assert_eq!(toggle_trailing_slash("/a/b/"), "/a/b");
    assert_eq!(toggle_trailing_slash(""), "/");
    assert_eq!(split_slash_exec("/a//b"), vec!["", "a", "", "b"]);
    assert_eq!(split_slash_exec(""), vec![""]);
}
