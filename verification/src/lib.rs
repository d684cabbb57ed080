pub mod autopilot;
pub mod calibration;
pub mod catalog;
pub mod effect;
pub mod jobs;
pub mod sensor;
pub mod text;
