//! The TFTP server handle: the listening address and the file handler that
//! sessions will draw on. Binding the socket and moving datagrams is the
//! embedding program's work.

use vstd::prelude::*;
use vstd::string::StringExecFns;
use crate::tftp::state::Handler;

verus! {

/// A configured TFTP server: where to listen and how to resolve filenames.
pub struct Server<H: Handler> {
    pub address: String,
    pub handler: H,
}

impl<H: Handler> Server<H> {
    /// A server on the well-known TFTP port, 69, on every interface.
    pub fn new(handler: H) -> (r: Server<H>)
        ensures
            r.address@ == "0.0.0.0:69"@,
            r.handler == handler,
    {
        Server { address: String::from_str("0.0.0.0:69"), handler }
    }

    /// Changes the listening address.
    pub fn address(&mut self, addr: String)
        ensures
            final(self).address@ == addr@,
            final(self).handler == old(self).handler,
    {
        self.address = addr;
    }
}

} // verus!
