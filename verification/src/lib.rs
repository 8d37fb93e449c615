//! A read-only virtual file store: files bundled into the program are served
//! through descriptor-based operations (open, read, stat, readdir, chdir,
//! getcwd, close) without existing on disk.
//!
//! [`fs::Fs`] is the store. [`model::FsState`] is the store as a
//! mathematical value; every operation is specified as a function on it, and
//! [`laws`] holds what is proved of the operations together. [`surface`]
//! offers the operations in the shape of the system calls they stand in for,
//! and [`gate::ThreadActivationMap`] records which threads are to be served
//! by the store at all.

pub mod blob;
pub mod bytes;
pub mod dir;
pub mod fs;
pub mod gate;
pub mod index;
pub mod laws;
pub mod model;
pub mod path;
pub mod surface;
pub mod table;
pub mod trie;
pub mod types;

pub use dir::DirEntry;
pub use dir::FsDir;
pub use fs::Fs;
pub use gate::ThreadActivationMap;
pub use index::PathIndex;
pub use model::FD_BASE;
pub use model::MAX_OPEN;
pub use surface::chdir_from_fs;
pub use surface::close_from_fs;
pub use surface::closedir_from_fs;
pub use surface::context_func;
pub use surface::fdopendir_from_fs;
pub use surface::fstat_from_fs;
pub use surface::get_start_file;
pub use surface::getcwd_from_fs;
pub use surface::initialize_trie;
pub use surface::is_context_func;
pub use surface::open_at_from_fs;
pub use surface::open_from_fs;
pub use surface::raw_path_to_kompo_path;
pub use surface::read_from_fs;
pub use surface::readdir_from_fs;
pub use surface::stat_from_fs;
pub use table::DescriptorTable;
pub use types::FileKind;
pub use types::FsError;
pub use types::Metadata;
