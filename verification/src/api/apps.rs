//! The app registry over HTTP.

use vstd::prelude::*;

use crate::config::AppSpec;

verus! {

/// The app registry plus what is running right now.
#[derive(Debug)]
pub struct AppsResponse {
    /// Every launchable app, in registry order.
    pub apps: Vec<AppSpec>,
    /// The id of the running app, if any.
    pub current: Option<String>,
}

} // verus!
