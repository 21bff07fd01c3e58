//! Decision logic of an infrared face-authentication service.
pub mod alignment;
pub mod camera;
pub mod canvas;
pub mod check_config;
pub mod cli;
pub mod config;
pub mod configure;
pub mod detection;
pub mod enroll;
pub mod enrollment;
pub mod error;
pub mod framing;
pub mod geometry;
pub mod gui;
pub mod inference;
pub mod install;
pub mod install_laws;
pub mod ir_emitter;
pub mod liveness;
pub mod local_auth;
pub mod model_store;
pub mod models;
pub mod pam;
pub mod platform;
pub mod protocol;
pub mod quality;
pub mod raster;
pub mod recognition;
pub mod scalar;
pub mod session;
pub mod settings_tab;
pub mod shapes;
pub mod test_auth;
pub mod text;
pub mod wire;
