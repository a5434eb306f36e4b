//! Application configuration data.

use vstd::prelude::*;

verus! {

/// Where the application keeps its data and its configuration.
#[derive(Debug, Clone)]
pub struct AppConfig {
    pub data_dir: String,
    pub config_dir: String,
}

impl Default for AppConfig {
    fn default() -> (r: Self)
        ensures
            r.data_dir@ == Seq::<char>::empty(),
            r.config_dir@ == Seq::<char>::empty(),
    {
        AppConfig { data_dir: String::new(), config_dir: String::new() }
    }
}

} // verus!
