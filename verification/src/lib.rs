//! Keeps a video-capture pipeline pointed at whichever compositor output
//! currently holds keyboard focus.
//!
//! The crate holds the selection-and-supervision core: deciding, on every
//! focus-change notification, which output (if any) should be recorded;
//! allocating a virtual capture device per distinct output resolution; and
//! describing the atomic stop/start swap of the capture processes. All
//! process spawning and compositor I/O live outside the library, which only
//! consumes plain snapshots of outputs and workspaces and produces plain
//! process descriptions.

pub mod registry;
pub mod resolution;
pub mod select;
pub mod supervisor;
pub mod workspace;
