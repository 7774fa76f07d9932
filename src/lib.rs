//! Conversion of browser voxel-world saves between their JSON form and the
//! browser's local-storage layout, with the deterministic generator that the
//! terrain is seeded from.

pub mod command;
pub mod level;
pub mod random;
pub mod settings;
pub mod storage;
pub mod text;

pub use level::{ChangedBlocks, Data, JSLevel};
pub use random::Random;
pub use settings::Settings;
