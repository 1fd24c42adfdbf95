//! Reading files and directories, finding files, and what a file is.

pub mod glob;
pub mod read;
pub mod read_laws;
pub mod stamp;
