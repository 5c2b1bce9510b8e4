pub mod error;
pub mod wire;
pub mod protocol;
pub mod run;
pub mod text;
pub mod paths;
pub mod sysfs;
pub mod kernel;
pub mod host;
pub mod vhci;
pub mod engine;
