//! What a client needs before it talks to a server: where the server is, how big the
//! parts of a response it reads may be, and the handler that makes sure a request says
//! how long its body is.

use vstd::prelude::*;

use crate::exchange::{lacks_length, str_byte_len, with_content_length};
use crate::handler::Handler;
use crate::headers::spec_add;
use crate::http_message::{BodyView, HttpMessage, Request, RequestView, Response, ResponseView};
use crate::text::decimal;

verus! {

/// The most bytes of headers and of trailers a client reads.
pub struct ClientOptions {
    pub headers_size: usize,
    pub trailers_size: usize,
}

/// Where a client sends its requests, and the last error it met.
pub struct Client {
    pub base_uri: String,
    pub port: u16,
    pub options: ClientOptions,
    pub err: String,
}

impl Client {
    /// A client of the server at `base_uri` and `port`; without options it reads up to
    /// 16384 bytes of headers and of trailers.
    pub fn new(base_uri: &str, port: u16, options: Option<ClientOptions>) -> (r: Client)
        ensures
            r.base_uri@ == base_uri@,
            r.port == port,
            r.err@ == Seq::<char>::empty(),
            match options {
                Some(o) => r.options == o,
                None => r.options == (ClientOptions { headers_size: 16384, trailers_size: 16384 }),
            },
    {
        let options = match options {
            Some(o) => o,
            None => ClientOptions { headers_size: 16384, trailers_size: 16384 },
        };
        proof {
            reveal_strlit("");
        }
        Client { base_uri: base_uri.to_owned(), port, options, err: "".to_owned() }
    }
}

/// The request as `with_content_length` leaves it: with a Content-Length giving its
/// body's length in bytes when it has neither a Content-Length nor a Transfer-Encoding.
pub open spec fn with_length_view(q: RequestView) -> RequestView {
    RequestView {
        headers: if lacks_length(q.headers) {
            match q.body {
                BodyView::Text(s) => spec_add(q.headers, "Content-Length"@, decimal((str_byte_len(s) as u32) as nat)),
                BodyView::Bytes(_) => q.headers,
            }
        } else {
            q.headers
        },
        ..q
    }
}

/// Hands requests on with a Content-Length where they say nothing of their length.
pub struct WithContentLength<H: Handler> {
    pub next_handler: H,
}

impl<H: Handler> WithContentLength<H> {
    pub fn new(next_handler: H) -> (r: WithContentLength<H>)
        ensures
            r.next_handler == next_handler,
    {
        WithContentLength { next_handler }
    }
}

impl<H: Handler> Handler for WithContentLength<H> {
    /// A request without a length header must have a string body.
    open spec fn accepts(&self, req: RequestView) -> bool {
        &&& lacks_length(req.headers) ==> req.body is Text
        &&& self.next_handler.accepts(with_length_view(req))
    }

    open spec fn responds(&self, req: RequestView, res: ResponseView) -> bool {
        self.next_handler.responds(with_length_view(req), res)
    }

    fn handle<F>(&mut self, req: Request, fun: F) where F: for<'r> FnOnce(Response<'r>) {
        let ghost rv = req@;
        let ghost f = fun;
        let request = with_content_length(HttpMessage::Request(req)).to_req();
        proof {
            assert(request@ == with_length_view(rv));
            assert forall|res: Response| #[trigger] self.next_handler.responds(request@, res@) implies call_requires(
                fun,
                (res,),
            ) by {
                assert(self.responds(rv, res@));
            }
        }
        let ghost qv = request@;
        self.next_handler.handle(request, fun);
        proof {
            let w = choose|res: Response|
                #[trigger] old(self).next_handler.responds(qv, res@) && call_ensures(f, (res,), ());
            assert(old(self).responds(rv, w@));
        }
    }
}

} // verus!
