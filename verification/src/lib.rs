//! Generation of a GitHub CI release workflow description: classify build
//! targets onto runners, distribute them under a packing strategy, assemble
//! the pipeline description, and detect drift between a freshly rendered
//! workflow and the copy on disk.

pub mod distribute;
pub mod info;
pub mod order;
pub mod runner;
pub mod substr;
pub mod sync;
