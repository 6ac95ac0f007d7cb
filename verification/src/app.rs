//! An application built from handlers: an entry point that sends `/api/` requests to an
//! API and everything else on, a small JSON API, and a handler for the home page.

use vstd::prelude::*;

use crate::environment::Environment;
use crate::handler::Handler;
use crate::headers::Headers;
use crate::http_message::{response_of, Body, BodyView, Request, RequestView, Response, ResponseView, Status};
use crate::text::{replace_all, replace_str, starts_with, starts_with_str, str_eq};
use crate::uri::{spec_parse_uri, Uri};

verus! {

/// A handler together with the environment it runs in.
pub struct App<H: Handler> {
    pub handler: H,
    pub env: Environment,
}

impl<H: Handler> App<H> {
    pub fn new(handler: H, env: Environment) -> (r: App<H>)
        ensures
            r.handler == handler,
            r.env@ == env@,
    {
        App { handler, env }
    }
}

impl<H: Handler> Handler for App<H> {
    open spec fn accepts(&self, req: RequestView) -> bool {
        self.handler.accepts(req)
    }

    open spec fn responds(&self, req: RequestView, res: ResponseView) -> bool {
        self.handler.responds(req, res)
    }

    fn handle<F>(&mut self, req: Request, fun: F) where F: for<'r> FnOnce(Response<'r>) {
        let ghost rv = req@;
        let ghost f = fun;
        proof {
            assert forall|res: Response| #[trigger] self.handler.responds(req@, res@) implies call_requires(
                fun,
                (res,),
            ) by {
                assert(self.responds(req@, res@));
            }
        }
        self.handler.handle(req, fun);
        proof {
            let w = choose|res: Response|
                #[trigger] old(self).handler.responds(rv, res@) && call_ensures(f, (res,), ());
            assert(old(self).responds(rv, w@));
        }
    }
}

/// The request as the API sees it: its path with `/api/` replaced by `/`.
pub open spec fn api_request(req: RequestView) -> RequestView {
    RequestView { uri: spec_parse_uri(replace_all(req.uri.path, "/api/"@, "/"@)), ..req }
}

/// The path is under `/api/`.
pub open spec fn is_api_path(path: Seq<char>) -> bool {
    starts_with(path, "/api/"@)
}

/// Sends requests under `/api/` to the API and the others to the next handler.
pub struct EntryPoint<G: Handler, H: Handler> {
    pub api: G,
    pub next: H,
}

impl<G: Handler, H: Handler> EntryPoint<G, H> {
    pub fn new(api: G, next: H) -> (r: EntryPoint<G, H>)
        ensures
            r.api == api,
            r.next == next,
    {
        EntryPoint { api, next }
    }
}

impl<G: Handler, H: Handler> Handler for EntryPoint<G, H> {
    open spec fn accepts(&self, req: RequestView) -> bool {
        if is_api_path(req.uri.path) {
            self.api.accepts(api_request(req))
        } else {
            self.next.accepts(req)
        }
    }

    open spec fn responds(&self, req: RequestView, res: ResponseView) -> bool {
        if is_api_path(req.uri.path) {
            self.api.responds(api_request(req), res)
        } else {
            self.next.responds(req, res)
        }
    }

    fn handle<F>(&mut self, req: Request, fun: F) where F: for<'r> FnOnce(Response<'r>) {
        let ghost rv = req@;
        let ghost f = fun;
        if starts_with_str(req.uri.path, "/api/") {
            proof {
                reveal_strlit("/api/");
            }
            let path = replace_str(req.uri.path, "/api/", "/");
            let uri = Uri::parse(path.as_str());
            let api_req = req.with_uri(uri);
            proof {
                assert(api_req@ == api_request(rv));
                assert forall|res: Response| #[trigger] self.api.responds(api_req@, res@) implies call_requires(
                    fun,
                    (res,),
                ) by {
                    assert(self.responds(rv, res@));
                }
            }
            let ghost av = api_req@;
            self.api.handle(api_req, fun);
            proof {
                let w = choose|res: Response|
                    #[trigger] old(self).api.responds(av, res@) && call_ensures(f, (res,), ());
                assert(old(self).responds(rv, w@));
            }
        } else {
            proof {
                assert forall|res: Response| #[trigger] self.next.responds(rv, res@) implies call_requires(
                    fun,
                    (res,),
                ) by {
                    assert(self.responds(rv, res@));
                }
            }
            self.next.handle(req, fun);
            proof {
                let w = choose|res: Response|
                    #[trigger] old(self).next.responds(rv, res@) && call_ensures(f, (res,), ());
                assert(old(self).responds(rv, w@));
            }
        }
    }
}

/// What `serde_json::from_str` makes of a text, as `None` when the text is not JSON,
/// `Some(Some(s))` when it is the JSON string `s`, and `Some(None)` for any other value.
pub uninterp spec fn json_string_value(text: Seq<char>) -> Option<Option<Seq<char>>>;

/// The view of what `parse_json_string` gives.
pub open spec fn json_result_view(r: Option<Option<String>>) -> Option<Option<Seq<char>>> {
    match r {
        Some(Some(s)) => Some(Some(s@)),
        Some(None) => Some(None),
        None => None,
    }
}

/// Parses the text with `serde_json::from_str` into a `serde_json::Value` and tells
/// whether it failed, gave a string (which is returned), or gave another value. The
/// result is named `json_string_value` of the text.
#[verifier::external_body]
fn parse_json_string(text: &str) -> (r: Option<Option<String>>)
    ensures
        json_result_view(r) == json_string_value(text@),
{
    match serde_json::from_str::<serde_json::Value>(text) {
        Ok(serde_json::Value::String(s)) => Some(Some(s)),
        Ok(_) => Some(None),
        Err(_) => None,
    }
}

/// The data the API serves.
pub open spec fn api_data() -> Seq<char> {
    "{\n    \"name\": \"John Doe\",\n    \"age\": 43\n}"@
}

fn api_data_text() -> (r: &'static str)
    ensures
        r@ == api_data(),
{
    "{\n    \"name\": \"John Doe\",\n    \"age\": 43\n}"
}

/// The body the API answers with: its data if that is a JSON string, else `{}`.
pub open spec fn api_body() -> Seq<char> {
    match json_string_value(api_data()) {
        Some(Some(s)) => s,
        _ => "{}"@,
    }
}

/// Answers every path under `/` with its data read as JSON (500 where it does not read),
/// and anything else with 404.
pub struct Api {}

impl Api {
    pub fn new() -> (r: Api) {
        Api {}
    }
}

impl Handler for Api {
    open spec fn accepts(&self, req: RequestView) -> bool {
        true
    }

    /// A path under `/` gets the data's body, or a 500 where the data does not read as
    /// JSON; any other path gets 404.
    open spec fn responds(&self, req: RequestView, res: ResponseView) -> bool {
        if starts_with(req.uri.path, "/"@) {
            if json_string_value(api_data()) is Some {
                res == response_of(Status::OK, Seq::empty(), BodyView::Text(api_body()))
            } else {
                res == response_of(
                    Status::InternalServerError,
                    Seq::empty(),
                    BodyView::Text("The API's data is not JSON."@),
                )
            }
        } else {
            res == response_of(Status::NotFound, Seq::empty(), BodyView::Text("Not found"@))
        }
    }

    fn handle<F>(&mut self, req: Request, fun: F) where F: for<'r> FnOnce(Response<'r>) {
        let ghost rv = req@;
        if starts_with_str(req.uri.path, "/") {
            let json = parse_json_string(api_data_text());
            match json {
                Some(Some(s)) => {
                    let res = Response::ok(Headers::empty(), Body::BodyString(s.as_str()));
                    proof {
                        assert(self.responds(rv, res@));
                    }
                    fun(res)
                },
                Some(None) => {
                    let res = Response::ok(Headers::empty(), Body::BodyString("{}"));
                    proof {
                        assert(self.responds(rv, res@));
                    }
                    fun(res)
                },
                None => {
                    let res = Response::internal_server_error(
                        Headers::empty(),
                        Body::BodyString("The API's data is not JSON."),
                    );
                    proof {
                        assert(self.responds(rv, res@));
                    }
                    fun(res)
                },
            }
        } else {
            let res = Response::not_found(Headers::empty(), Body::BodyString("Not found"));
            proof {
                assert(self.responds(rv, res@));
            }
            fun(res)
        }
    }
}

/// Answers `/` with a greeting and anything else with 404.
pub struct OkHandler {}

impl Handler for OkHandler {
    open spec fn accepts(&self, req: RequestView) -> bool {
        true
    }

    open spec fn responds(&self, req: RequestView, res: ResponseView) -> bool {
        if req.uri.path == "/"@ {
            res == response_of(Status::OK, Seq::empty(), BodyView::Text("Hello, world!"@))
        } else {
            res == response_of(Status::NotFound, Seq::empty(), BodyView::Text("Not found."@))
        }
    }

    fn handle<F>(&mut self, req: Request, fun: F) where F: for<'r> FnOnce(Response<'r>) {
        let ghost rv = req@;
        if str_eq(req.uri.path, "/") {
            let res = Response::ok(Headers::empty(), Body::BodyString("Hello, world!"));
            proof {
                assert(self.responds(rv, res@));
            }
            fun(res)
        } else {
            let res = Response::not_found(Headers::empty(), Body::BodyString("Not found."));
            proof {
                assert(self.responds(rv, res@));
            }
            fun(res)
        }
    }
}

} // verus!
