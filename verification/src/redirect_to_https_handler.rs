//! Sends requests that did not come over HTTPS to their HTTPS address, in production.

use vstd::prelude::*;

use crate::environment::{lookup, lookup_pairs};
use crate::handler::Handler;
use crate::headers::{add_each, pair_views, str_pair_views, HeaderView, Headers};
use crate::http_message::{response_of, Body, BodyView, Request, RequestView, Response, ResponseView, Status};
use crate::text::str_eq;
use crate::uri::{spec_uri_string, UriView};

verus! {

/// The environment says it is production.
pub open spec fn is_production(env: Seq<HeaderView>) -> bool {
    lookup(env, "environment"@) == Some("production"@)
}

/// The request must be sent to its HTTPS address.
pub open spec fn must_redirect(env: Seq<HeaderView>, uri: UriView) -> bool {
    is_production(env) && uri.scheme != Some("https"@)
}

/// The HTTPS address of a URI: the same URI with the scheme `https`.
pub open spec fn https_location(uri: UriView) -> Seq<char> {
    spec_uri_string(UriView { scheme: Some("https"@), ..uri })
}

/// The answer that sends a request to its HTTPS address.
pub open spec fn redirect_response(uri: UriView) -> ResponseView {
    response_of(
        Status::MovedPermanently,
        add_each(Seq::empty(), seq![("Location"@, https_location(uri))]),
        BodyView::Text(Seq::empty()),
    )
}

pub struct RedirectToHttpsHandler<H: Handler> {
    pub next_handler: H,
    pub env: Vec<(String, String)>,
}

impl<H: Handler> RedirectToHttpsHandler<H> {
    /// The handler over `handler`, with the environment's settings as pairs.
    pub fn new(handler: H, env: Vec<(String, String)>) -> (r: RedirectToHttpsHandler<H>)
        ensures
            r.next_handler == handler,
            pair_views(r.env@) == pair_views(env@),
    {
        RedirectToHttpsHandler { next_handler: handler, env }
    }
}

impl<H: Handler> Handler for RedirectToHttpsHandler<H> {
    open spec fn accepts(&self, req: RequestView) -> bool {
        !must_redirect(pair_views(self.env@), req.uri) ==> self.next_handler.accepts(req)
    }

    open spec fn responds(&self, req: RequestView, res: ResponseView) -> bool {
        if must_redirect(pair_views(self.env@), req.uri) {
            res == redirect_response(req.uri)
        } else {
            self.next_handler.responds(req, res)
        }
    }

    fn handle<F>(&mut self, req: Request, fun: F) where F: for<'r> FnOnce(Response<'r>) {
        let ghost rv = req@;
        let ghost f = fun;
        let production = match lookup_pairs(&self.env, "environment") {
            Some(v) => str_eq(v.as_str(), "production"),
            None => false,
        };
        let https = match req.uri.scheme {
            Some(s) => str_eq(s, "https"),
            None => false,
        };
        if production && !https {
            let location = req.uri.with_scheme("https").to_string();
            let pairs = vec![("Location", location.as_str())];
            proof {
                assert(str_pair_views(pairs@) =~= seq![("Location"@, location@)]);
            }
            let res = Response::moved_permanently(Headers::from(pairs), Body::empty());
            proof {
                assert(self.responds(rv, res@));
            }
            return fun(res);
        }
        proof {
            assert forall|res: Response| #[trigger] self.next_handler.responds(rv, res@) implies call_requires(
                fun,
                (res,),
            ) by {
                assert(self.responds(rv, res@));
            }
        }
        self.next_handler.handle(req, fun);
        proof {
            let w = choose|res: Response|
                #[trigger] old(self).next_handler.responds(rv, res@) && call_ensures(f, (res,), ());
            assert(old(self).responds(rv, w@));
        }
    }
}

} // verus!
