//! What every multiplexer offers.

use vstd::prelude::*;
use super::command::{MuxBackendKind, MuxCommand};
use super::snapshot::MuxSnapshot;

verus! {

/// A multiplexer: it can be looked at, and told to do something.
pub trait MuxBackend {
    fn kind(&self) -> MuxBackendKind;

    fn snapshot(&self) -> Result<MuxSnapshot, String>;

    fn execute(&mut self, command: MuxCommand) -> Result<(), String>;
}

}
