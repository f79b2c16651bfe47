//! The data that the engine's API exchanges, field for field: the names are those of the
//! wire.

#![allow(non_snake_case)]

use vstd::prelude::*;

pub mod container;
pub mod image;
pub mod networks;
pub mod system;
pub mod volume;

verus! {

/// The version of the API that the engine speaks.
pub const API_VERSION: &'static str = "1.44";

/// The oldest version of the API that it takes from clients.
pub const MIN_API_VERSION: &'static str = "1.44";

/// The engine's own version.
pub const ENGINE_VERSION: &'static str = "0.1.0";

/// The header with the token of a build's secrets: no query parameter, so that it stands
/// in no log.
pub const BUILD_SECRET_TOKEN_HEADER: &'static str = "x-ingot-secret-token";

} // verus!
