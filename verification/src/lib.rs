//! Building blocks for small generative-art programs: recursive tiling of a
//! canvas into gradient-filled regions, a heat-map raster, and a pixel
//! remapping filter.
//!
//! Every function here carries a contract, and Verus proves that its body
//! keeps it.
pub mod colour;
pub mod field;
pub mod flock;
pub mod kay;
pub mod kayconfig;
pub mod pixel;
pub mod region;
pub mod rng;
pub mod surface;

pub use colour::Colours;
pub use field::{Field, Size, SubArgs};
pub use kayconfig::KayConfig;
pub use region::Region;
