//! Decoding of object dumps of a virtual-world server, filtering of the decoded
//! objects by region, and discovery of teleport destinations in their actions.
//!
//! - [`propdump`] decodes a dump into its objects.
//! - [`teleports`] loads regions of interest and tells whether a grid cell
//!   lies in one of them; [`coord`] reads the coordinates of a region file.
//! - [`discovery`] finds the teleport commands in an action and makes the
//!   lines that record their destinations.
//! - [`ctree`] decides what to ask of the storage engine and what its replies
//!   mean.
//! - [`numeric`] holds the notation of numbers that the others share.

pub mod coord;
pub mod ctree;
pub mod discovery;
pub mod numeric;
pub mod propdump;
pub mod teleports;
