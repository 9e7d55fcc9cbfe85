//! The service's configuration, as read from the environment by the
//! surrounding program.

use vstd::prelude::*;

verus! {

/// Configuration values.  `database_url` is required; the rest are
/// optional.  When `cache_url` is unset the tile cache degrades to a
/// no-op; `cache_control_header` overrides the response's default
/// `Cache-Control` value; `disable_gzip` suppresses response
/// compression.
#[derive(Clone, Debug)]
pub struct Config {
    pub database_url: String,
    pub cache_url: Option<String>,
    pub cache_control_header: Option<String>,
    pub allowed_origins: Option<String>,
    pub disable_gzip: Option<bool>,
}

} // verus!
