//! The options the command line hands the core: scaffolding takes no
//! options, and serving takes the port to bind, 3000 unless given.

use vstd::prelude::*;

verus! {

/// Options of the project-scaffolding command.
pub struct InitOpts {}

/// Options of the serve command.
pub struct RunOpts {
    pub port: u16,
}

impl Default for RunOpts {
    /// The default port the server binds.
    fn default() -> (r: Self)
        ensures
            r.port == 3000,
    {
        RunOpts { port: 3000 }
    }
}

impl RunOpts {
    pub fn new(port: u16) -> (r: Self)
        ensures
            r.port == port,
    {
        RunOpts { port }
    }
}

} // verus!
