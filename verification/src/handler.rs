//! Handlers: anything that takes a request and gives a response to a callback. A
//! handler says which requests it takes and which responses it may give; the callback
//! need only accept those.

use vstd::prelude::*;

use crate::http_message::{Request, RequestView, Response, ResponseView};

verus! {

pub trait Handler {
    /// The requests the handler can take (all of them, unless the handler says less).
    open spec fn accepts(&self, req: RequestView) -> bool {
        true
    }

    /// The responses the handler may give for `req` (any, unless the handler says more).
    open spec fn responds(&self, req: RequestView, res: ResponseView) -> bool {
        true
    }

    /// Handles the request and hands the response to `fun`, which must accept every
    /// response the handler may give. `fun` is called with one such response.
    fn handle<F>(&mut self, req: Request, fun: F)
        where
            F: for<'r> FnOnce(Response<'r>),
        requires
            old(self).accepts(req@),
            forall|res: Response| #[trigger] old(self).responds(req@, res@) ==> call_requires(
                fun,
                (res,),
            ),
        ensures
            exists|res: Response|
                #[trigger] old(self).responds(req@, res@) && call_ensures(fun, (res,), ()),
    ;
}

} // verus!
