//! A sparse voxel tree and the MagicaVoxel `.vox` loading that feeds it.
pub mod bits;
pub mod controls;
pub mod model_data;
pub mod render_settings;
pub mod sample_models;
pub mod svt;
pub mod svt_count;
pub mod svt_laws;
pub mod svt_model;
pub mod svt_shape;
pub mod svt_values;
pub mod svt_walk;
pub mod text;
pub mod vec3;
pub mod vox_format;
pub mod voxel_data;
pub mod voxel_loader;
