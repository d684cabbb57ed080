pub mod assemble;
pub mod assumption;
pub mod attribution;
pub mod availability;
pub mod contamination;
pub mod derive;
pub mod extract;
pub mod functional;
pub mod linking;
pub mod laws;
pub mod matrix;
pub mod overlay;
pub mod requirement;
pub mod routes;
pub mod split;
pub mod structure;
