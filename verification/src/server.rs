//! The server value: an immutable route table shared across connections,
//! and the shared context handed to every handler. The accept loop that
//! feeds it lives outside the library, with the rest of the I/O.

use vstd::prelude::*;

verus! {

use std::sync::Arc;
use crate::router::HttpRouter;

/// Shared configuration passed by reference to every handler invocation.
pub struct Context {
    pub workdir: String,
}

impl Context {
    /// A copy with the same working directory.
    pub fn duplicate(&self) -> (r: Context)
        ensures
            r.workdir@ == self.workdir@,
    {
        Context { workdir: self.workdir.clone() }
    }
}

impl Default for Context {
    fn default() -> (r: Context)
        ensures
            r.workdir@ == Seq::<char>::empty(),
    {
        Context { workdir: String::new() }
    }
}

pub struct HttpServer<H> {
    pub logging_enabled: bool,
    pub router: Arc<HttpRouter<H>>,
    pub context: Context,
}

impl<H> HttpServer<H> {
    pub fn new(router: HttpRouter<H>) -> (r: HttpServer<H>)
        ensures
            r.router == router,
            !r.logging_enabled,
            r.context.workdir@ == Seq::<char>::empty(),
    {
        HttpServer { logging_enabled: false, router: Arc::new(router), context: Context::default() }
    }

    pub fn set_context(&mut self, ctx: Context)
        ensures
            final(self).context == ctx,
            final(self).router == old(self).router,
            final(self).logging_enabled == old(self).logging_enabled,
    {
        self.context = ctx;
    }

    pub fn enable_logging(&mut self)
        ensures
            final(self).logging_enabled,
            final(self).router == old(self).router,
            final(self).context == old(self).context,
    {
        self.logging_enabled = true;
    }

    pub fn disable_logging(&mut self)
        ensures
            !final(self).logging_enabled,
            final(self).router == old(self).router,
            final(self).context == old(self).context,
    {
        self.logging_enabled = false;
    }

    pub fn logging_enabled(&self) -> (r: bool)
        ensures
            r == self.logging_enabled,
    {
        self.logging_enabled
    }
}

} // verus!
