//! Reading and loading of PE64 images.

pub mod cstring;
pub mod error;
pub mod error_laws;
pub mod file_laws;
pub mod identity;
pub mod image;
pub mod import_laws;
pub mod imports;
pub mod parsed;
pub mod patch;
pub mod sections;
