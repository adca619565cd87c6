//! Interactive selector engine for a cluster-management command line.
//!
//! The crate holds the verified core of a fuzzy resource picker: a registry of
//! key-triggered actions, the gating of actions by resource type, the
//! projection of selected listing rows into a selection context, and the
//! dispatch of a trigger key against that context.  External collaborators
//! (the listing command, the picker user interface, the clipboard, process
//! spawning) are driven by a thin unverified shell around this library, which
//! hands rows and keys in and carries command plans and output text back out.

pub mod bindings;
pub mod dispatch;
pub mod kubectl;
pub mod order;
pub mod registry;
pub mod text;
