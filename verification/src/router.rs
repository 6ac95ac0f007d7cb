//! Routers that answer requests in memory by their URI.

use vstd::prelude::*;

use crate::handler::Handler;
use crate::headers::{HeaderView, Headers};
use crate::http_message::{
    method_name, response_of, Body, BodyView, Request, RequestView, Response, ResponseView, Status,
};
use crate::uri::spec_uri_string;

verus! {

/// Answers `/` with the request's headers and a title, and anything else with 404.
pub struct Router {}

impl Handler for Router {
    open spec fn accepts(&self, req: RequestView) -> bool {
        true
    }

    open spec fn responds(&self, req: RequestView, res: ResponseView) -> bool {
        if spec_uri_string(req.uri) == "/"@ {
            res == response_of(Status::OK, req.headers, BodyView::Text("<h1>title</h1>"@))
        } else {
            res == response_of(Status::NotFound, Seq::empty(), BodyView::Text("Not found"@))
        }
    }

    fn handle<F>(&mut self, req: Request, fun: F) where F: for<'r> FnOnce(Response<'r>) {
        let ghost rv = req@;
        let uri = req.uri.to_string();
        if crate::text::str_eq(uri.as_str(), "/") {
            let res = Response::ok(req.headers, Body::BodyString("<h1>title</h1>"));
            proof {
                assert(self.responds(rv, res@));
            }
            fun(res)
        } else {
            let res = Response::not_found(Headers::empty(), Body::BodyString("Not found"));
            proof {
                assert(self.responds(rv, res@));
            }
            fun(res)
        }
    }
}

/// Answers a request for the path `/some/path` with its method's name, and anything
/// else with 404 and no body.
pub struct NicerRouter {}

impl Handler for NicerRouter {
    open spec fn accepts(&self, req: RequestView) -> bool {
        true
    }

    open spec fn responds(&self, req: RequestView, res: ResponseView) -> bool {
        if req.uri.path == "/some/path"@ {
            res == response_of(Status::OK, Seq::empty(), BodyView::Text(method_name(req.method)))
        } else {
            res == response_of(Status::NotFound, Seq::empty(), BodyView::Text(Seq::empty()))
        }
    }

    fn handle<F>(&mut self, req: Request, fun: F) where F: for<'r> FnOnce(Response<'r>) {
        let ghost rv = req@;
        if crate::text::str_eq(req.uri.path, "/some/path") {
            let res = Response::ok(Headers::empty(), Body::BodyString(req.method.name()));
            proof {
                assert(self.responds(rv, res@));
            }
            fun(res)
        } else {
            let res = Response::not_found(Headers::empty(), Body::empty());
            proof {
                assert(self.responds(rv, res@));
            }
            fun(res)
        }
    }
}

} // verus!
