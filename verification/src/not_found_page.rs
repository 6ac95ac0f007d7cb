//! A handler that answers with a page of its own where the next handler found nothing.

use vstd::prelude::*;

use crate::handler::Handler;
use crate::headers::Headers;
use crate::http_message::{response_of, Body, BodyView, Request, RequestView, Response, ResponseView, Status};

verus! {

/// The answer given in place of `res`: a 404 with the page where `res` is a 404, else
/// `res` itself.
pub open spec fn with_page(res: ResponseView, page: Seq<char>) -> ResponseView {
    if res.status == Status::NotFound {
        response_of(Status::NotFound, Seq::empty(), BodyView::Text(page))
    } else {
        res
    }
}

/// Hands requests to the next handler, and answers with the page where it found nothing.
pub struct NotFoundHandler<H: Handler> {
    pub handler: H,
    pub page: String,
}

impl<H: Handler> NotFoundHandler<H> {
    pub fn new(handler: H, page: String) -> (r: NotFoundHandler<H>)
        ensures
            r.handler == handler,
            r.page@ == page@,
    {
        NotFoundHandler { handler, page }
    }
}

impl<H: Handler> Handler for NotFoundHandler<H> {
    open spec fn accepts(&self, req: RequestView) -> bool {
        self.handler.accepts(req)
    }

    open spec fn responds(&self, req: RequestView, res: ResponseView) -> bool {
        exists|r: ResponseView| #[trigger] self.handler.responds(req, r) && res == with_page(r, self.page@)
    }

    fn handle<F>(&mut self, req: Request, fun: F) where F: for<'r> FnOnce(Response<'r>) {
        let ghost rv = req@;
        let ghost inner = self.handler;
        let ghost f = fun;
        let ghost pv = self.page@;
        let page = self.page.as_str();
        let next = move |res: Response| -> ()
            requires
                inner.responds(rv, res@),
                forall|x: Response|
                    (exists|r: ResponseView| #[trigger] inner.responds(rv, r) && x@ == with_page(r, pv))
                        ==> call_requires(f, (x,)),
            ensures
                exists|x: Response| x@ == with_page(res@, pv) && call_ensures(f, (x,), ()),
        {
            if res.status == Status::NotFound {
                let x = Response::not_found(Headers::empty(), Body::BodyString(page));
                let ghost g = x;
                fun(x);
                proof {
                    assert(g@ == with_page(res@, pv));
                }
            } else {
                let ghost g = res;
                fun(res);
                proof {
                    assert(g@ == with_page(g@, pv));
                }
            }
        };
        proof {
            assert forall|x: Response|
                (exists|r: ResponseView| #[trigger] inner.responds(rv, r) && x@ == with_page(r, pv))
                    implies call_requires(f, (x,)) by {
                assert(self.responds(rv, x@));
            }
        }
        self.handler.handle(req, next);
        proof {
            let r = choose|r: Response| #[trigger] inner.responds(rv, r@) && call_ensures(next, (r,), ());
            let x = choose|x: Response| x@ == with_page(r@, pv) && call_ensures(f, (x,), ());
            assert(old(self).responds(rv, x@));
        }
    }
}

} // verus!
