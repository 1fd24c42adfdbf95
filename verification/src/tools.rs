//! The tools that an executor offers.

pub mod exbash;
pub mod file_action;
pub mod fs;
pub mod rg;
pub mod search_laws;
pub mod soft_timeout;
