//! Resolution of network share references (`\\host\share\path`,
//! `smb://host/share/path`, `//host/share/path`) to local mount paths.
pub mod convert;
pub mod errors;
pub mod mapping;
pub mod text;

pub use convert::{convert_to_posix, parse_unc_path, UncPath};
pub use errors::UncPathError;
pub use mapping::{MappingTable, MountMapping};
