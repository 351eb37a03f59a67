//! Verified reader for SYSLINUX-family boot-loader configuration files.
//!
//! The crate parses a raw byte buffer holding a `syslinux.cfg`-style
//! configuration into a structured document of global options and named
//! boot labels, and then resolves every path in that document against a
//! device root directory and the configuration file's own directory.

use vstd::prelude::*;

pub mod decode;
pub mod laws;
pub mod lines;
pub mod parser;
pub mod reader;
pub mod resolve;
pub mod text;
pub mod types;

pub use reader::LocalConfType;
pub use reader::Reader;
pub use types::Global;
pub use types::Kernel;
pub use types::KernelFile;
pub use types::KernelOrConfig;
pub use types::Label;
pub use types::Labels;
pub use types::ReaderError;
pub use types::SyslinuxConf;
pub use types::Warning;

verus! {

} // verus!
