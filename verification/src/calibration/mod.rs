pub mod cli;
pub mod domain;
pub mod handle;
pub mod io;
pub mod jobs;
pub mod keys;
pub mod laws;
pub mod model;
pub mod publish;
pub mod wire;
