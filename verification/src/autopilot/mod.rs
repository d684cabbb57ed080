pub mod attach;
pub mod domain;
pub mod keys;
pub mod model;
pub mod preflight;
