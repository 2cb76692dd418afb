//! Application configuration handed in by the process that starts the
//! engine.

use vstd::prelude::*;

verus! {

/// Configuration the engine's callers must supply.
#[derive(Clone, Debug)]
pub struct AppConfig {
    /// The consumer key identifying this application to the remote service.
    pub pocket_consumer_key: String,
}

} // verus!
