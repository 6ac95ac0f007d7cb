//! A router with a single page: `/` is answered with the request's headers and a short
//! body, anything else with 404.

use vstd::prelude::*;

use crate::handler::Handler;
use crate::headers::Headers;
use crate::http_message::{response_of, Body, BodyView, Request, RequestView, Response, ResponseView, Status};
use crate::text::str_eq;
use crate::uri::spec_uri_string;

verus! {

pub struct Router {}

impl Handler for Router {
    open spec fn accepts(&self, req: RequestView) -> bool {
        true
    }

    open spec fn responds(&self, req: RequestView, res: ResponseView) -> bool {
        if spec_uri_string(req.uri) == "/"@ {
            res == response_of(Status::OK, req.headers, BodyView::Text("body response"@))
        } else {
            res == response_of(Status::NotFound, Seq::empty(), BodyView::Text("Not found"@))
        }
    }

    fn handle<F>(&mut self, req: Request, fun: F) where F: for<'r> FnOnce(Response<'r>) {
        let ghost rv = req@;
        let uri = req.uri.to_string();
        if str_eq(uri.as_str(), "/") {
            let res = Response::ok(req.headers, Body::BodyString("body response"));
            proof {
                assert(self.responds(rv, res@));
            }
            fun(res)
        } else {
            let res = Response::not_found(Headers::empty(), Body::BodyString("Not found"));
            proof {
                assert(self.responds(rv, res@));
            }
            fun(res)
        }
    }
}

} // verus!
