use http4r_core::app::{Api, App, EntryPoint, OkHandler};
use http4r_core::client::{Client, ClientOptions, WithContentLength};
use http4r_core::environment::Environment;
use http4r_core::handler::Handler;
use http4r_core::not_found_page::NotFoundHandler;
use http4r_core::headers::Headers;
use http4r_core::http_message::{body_string, Body, Request, Status};
use http4r_core::redirect_to_https_handler::RedirectToHttpsHandler;
use http4r_core::router::Router;
use http4r_core::uri::Uri;

#[test]
fn router_answers_the_home_page_with_the_request_headers() {
    let mut router = Router {};
    router.handle(Request::get(Uri::parse("/"), Headers::from(vec!(("a", "b")))), |res| {
        assert_eq!(res.status, Status::OK);
        assert_eq!(res.headers.vec, vec!(("a".to_string(), "b".to_string())));
        assert_eq!(body_string(res.body), "<h1>title</h1>");
    });
    router.handle(Request::get(Uri::parse("/elsewhere"), Headers::empty()), |res| {
        assert_eq!(res.status, Status::NotFound);
        assert_eq!(body_string(res.body), "Not found");
    });
}

#[test]
fn with_content_length_hands_on_a_request_with_its_length() {
    let mut handler = WithContentLength::new(Router {});
    handler.handle(Request::post(Uri::parse("/"), Headers::empty(), Body::BodyString("hello")), |res| {
        assert_eq!(res.headers.vec, vec!(("Content-Length".to_string(), "5".to_string())));
    });
}

#[test]
fn production_requests_over_http_are_redirected() {
    let env = vec!(("environment".to_string(), "production".to_string()));
    let mut handler = RedirectToHttpsHandler::new(OkHandler {}, env);
    handler.handle(Request::get(Uri::parse("http://example.com/a?b=c"), Headers::empty()), |res| {
        assert_eq!(res.status, Status::MovedPermanently);
        assert_eq!(res.headers.vec, vec!(("Location".to_string(), "https://example.com/a?b=c".to_string())));
    });
    handler.handle(Request::get(Uri::parse("https://example.com/"), Headers::empty()), |res| {
        assert_eq!(res.status, Status::OK);
    });
}

#[test]
fn other_environments_are_not_redirected() {
    let mut handler = RedirectToHttpsHandler::new(OkHandler {}, vec!(("environment".to_string(), "test".to_string())));
    handler.handle(Request::get(Uri::parse("http://example.com/"), Headers::empty()), |res| {
        assert_eq!(res.status, Status::OK);
        assert_eq!(body_string(res.body), "Hello, world!");
    });
}

#[test]
fn entry_point_sends_api_paths_to_the_api() {
    let mut app = App::new(EntryPoint::new(Api::new(), OkHandler {}), Environment::empty());
    app.handle(Request::get(Uri::parse("/api/people"), Headers::empty()), |res| {
        assert_eq!(res.status, Status::OK);
        assert_eq!(body_string(res.body), "{}");
    });
    app.handle(Request::get(Uri::parse("/"), Headers::empty()), |res| {
        assert_eq!(body_string(res.body), "Hello, world!");
    });
    app.handle(Request::get(Uri::parse("/nothing"), Headers::empty()), |res| {
        assert_eq!(res.status, Status::NotFound);
        assert_eq!(body_string(res.body), "Not found.");
    });
}

#[test]
fn profile_router_without_an_organisation() {
    let mut router = http4r_core::site_router::Router::new();
    router.handle(Request::get(Uri::parse("/about"), Headers::from(vec!(("a", "x")))), |res| {
        assert_eq!(body_string(res.body), "Tom: X");
    });
}

#[test]
fn client_defaults() {
    let c = Client::new("127.0.0.1", 8080, None);
    assert_eq!(c.base_uri, "127.0.0.1");
    assert_eq!(c.options.headers_size, 16384);
    assert_eq!(c.options.trailers_size, 16384);
    assert_eq!(c.err, "");
    let d = Client::new("h", 1, Some(ClientOptions { headers_size: 1, trailers_size: 2 }));
    assert_eq!(d.options.trailers_size, 2);
}

#[test]
fn home_router_answers_only_the_home_page() {
    let mut router = http4r_core::home_router::Router {};
    router.handle(Request::get(Uri::parse("/"), Headers::from(vec!(("a", "b")))), |res| {
        assert_eq!(res.status, Status::OK);
        assert_eq!(res.headers.vec, vec!(("a".to_string(), "b".to_string())));
        assert_eq!(body_string(res.body), "body response");
    });
    router.handle(Request::get(Uri::parse("/no/route/here"), Headers::empty()), |res| {
        assert_eq!(res.status, Status::NotFound);
        assert_eq!(body_string(res.body), "Not found");
    });
}

#[test]
fn app_in_memory_test_not_found() {
    // the page as the application reads it from its not-found file
    let page = "Our custom 404 page!".to_string();
    let mut not_found_handler = NotFoundHandler::new(OkHandler {}, page);
    let unknown_route = Request::get(Uri::parse("/unknown/route"), Headers::empty());
    not_found_handler.handle(unknown_route, |res| {
        assert_eq!(res.status, Status::NotFound);
        assert_eq!(body_string(res.body), "Our custom 404 page!")
    });
    not_found_handler.handle(Request::get(Uri::parse("/"), Headers::empty()), |res| {
        assert_eq!(res.status, Status::OK);
        assert_eq!(body_string(res.body), "Hello, world!")
    });
}
