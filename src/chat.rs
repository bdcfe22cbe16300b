//! A table of request handlers keyed by method and path. Nothing dispatches
//! through it yet; it only records what is attached.
use vstd::prelude::*;
use crate::method::HttpMethod;
use crate::path::HttpPath;
use crate::request::HttpRequest;

verus! {

pub struct HttpHandler<F> {
    pub method: HttpMethod,
    pub path: HttpPath,
    pub handler: F,
}

pub struct HttpRouter<F> {
    handlers: Vec<HttpHandler<F>>,
}

impl<F: Fn(HttpRequest)> HttpRouter<F> {
    /// The routes in the order they were attached: method, path and query,
    /// and handler.
    pub closed spec fn routes(&self) -> Seq<(HttpMethod, (Seq<char>, Option<Seq<char>>), F)> {
        Seq::new(
            self.handlers@.len(),
            |i: int| (self.handlers@[i].method, self.handlers@[i].path.model(), self.handlers@[i].handler),
        )
    }

    pub fn new() -> (r: HttpRouter<F>)
        ensures
            r.routes() == Seq::<(HttpMethod, (Seq<char>, Option<Seq<char>>), F)>::empty(),
    {
        let r = HttpRouter { handlers: Vec::new() };
        assert(r.routes() =~= Seq::<(HttpMethod, (Seq<char>, Option<Seq<char>>), F)>::empty());
        r
    }

    /// How many handlers are attached.
    pub fn route_count(&self) -> (r: usize)
        ensures
            r == self.routes().len(),
    {
        self.handlers.len()
    }

    /// Adds a handler for requests with this method and path.
    pub fn attach(&mut self, method: HttpMethod, path: HttpPath, handler: F)
        ensures
            final(self).routes() == old(self).routes().push((method, path.model(), handler)),
    {
        let ghost model = path.model();
        let ghost h = handler;
        self.handlers.push(HttpHandler { method, path, handler });
        assert(final(self).routes() =~= old(self).routes().push((method, model, h)));
    }
}

} // verus!
