//! Detection and cropping of rectangular photographs in scanned images:
//! the decisions, geometry and naming rules of the pipeline, verified.

pub mod config;
pub mod daemon;
pub mod detection;
pub mod geometry;
pub mod image_processor;
pub mod layout;
pub mod paths;
pub mod text;

pub use config::{LogLevel, ProcessingConfig, ProcessingResult};
pub use daemon::DaemonWatcher;
pub use image_processor::ImageProcessor;
