//! The GNOME backend.
use vstd::prelude::*;

use crate::errors::BackendError;

pub mod apply;
pub mod brightness;
pub mod connectors;
pub mod dbus;
pub mod dimming;
pub mod discovery;
pub mod introspect;
pub mod layout;
pub mod logind;
pub mod monitors;
pub mod outputs;
pub mod power;
pub mod state;

verus! {

/// Control of the outputs of a GNOME session, through Mutter.
pub struct GnomeBackend;

impl GnomeBackend {
    pub fn new() -> (r: Result<Self, BackendError>)
        ensures
            r is Ok,
    {
        Ok(GnomeBackend)
    }
}

} // verus!
