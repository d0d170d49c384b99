//! Tile selection, fetch scheduling and raster layout for turning aerial
//! LIDAR point-cloud tiles into heightmap textures.
//!
//! Every function here carries a contract that Verus proves. Calls into
//! other crates stand behind small wrappers whose doc comments say what is
//! taken on trust.

pub mod global_constants;
pub mod area;
pub mod cloud;
pub mod assemble;
pub mod config;
pub mod decimal;
pub mod distinct;
pub mod errors;
pub mod fetch;
pub mod naming;
pub mod point;
pub mod raster;
pub mod region;
pub mod workload;
