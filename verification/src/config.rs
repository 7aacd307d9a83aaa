//! What the program keeps between runs.

use vstd::prelude::*;

verus! {

/// The credentials of the application at the cloud drive.
#[derive(Debug)]
pub struct AppConfig {
    pub client_id: String,
    pub client_secret: String,
}

impl Default for AppConfig {
    /// The configuration of a fresh installation: both fields empty.
    fn default() -> (config: Self)
        ensures
            config.client_id@ == Seq::<char>::empty(),
            config.client_secret@ == Seq::<char>::empty(),
    {
        AppConfig { client_id: String::new(), client_secret: String::new() }
    }
}

} // verus!
