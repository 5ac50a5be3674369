//! Verified core of the golem mobile UI test runner.
pub mod text;
pub mod accessibility;
pub mod capture;
pub mod barrier;
pub mod data_driven;
pub mod media;
pub mod element;
pub mod dev_overlay;
pub mod color;
pub mod audit;
pub mod cleanup;
pub mod checks;
pub mod interaction;
pub mod annotate;
pub mod branch;
pub mod apps;
pub mod external;
pub mod actions;
pub mod context;
