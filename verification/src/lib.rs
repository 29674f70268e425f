//! Grid-sampled, reduced-colour patterns from raster images.
//!
//! An image is sampled onto a fixed grid of cells (`sampler`), the sampled
//! colours are merged into a small palette by nearest-pair clustering
//! (`cluster`, with `pairs`, `forest`, `partition` and `average` beneath it
//! and what holds of every reduction in `cluster_proofs`), and the whole run
//! (`job`) can be cancelled cooperatively (`cancel`) and superseded by a
//! newer one (`supervisor`). `config` holds the settings of a pattern.
//!
//! Beside the patterns stand a reader of voxel models (`vox`), a list of
//! numbers (`vector`) and vectors in the plane (`plane`).

pub mod average;
pub mod cancel;
pub mod cluster;
pub mod cluster_proofs;
pub mod color;
pub mod config;
pub mod forest;
pub mod image;
pub mod job;
pub mod pairs;
pub mod partition;
pub mod plane;
pub mod point;
pub mod sampler;
pub mod supervisor;
pub mod vector;
pub mod vox;
