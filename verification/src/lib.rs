//! Vorzax: the verified core of an ARM64 teaching kernel.

pub mod boot;
pub mod util;
pub mod driver;
pub mod kernel;
pub mod gui;
