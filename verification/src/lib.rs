//! Runtime support for just-in-time compiled Aster programs.
//!
//! The crate defines the boundary between generated code and the functions that
//! the host provides. An [`ExecutionContext`] owns everything that one execution
//! allocates: two arenas of paged memory, the first error that was reported, and
//! the devices of the host that programs may use. Addresses are numbers that the
//! arenas hand out; every operation says what it makes of the memory behind them.

pub mod arena;
pub mod arena_history;
pub mod arena_laws;
pub mod array;
pub mod array_laws;
pub mod console;
pub mod console_laws;
pub mod context;
pub mod context_laws;
pub mod dictionary;
pub mod dictionary_abi;
pub mod dictionary_call_laws;
pub mod dictionary_history;
pub mod dictionary_laws;
pub mod dictionary_table;
pub mod file_laws;
pub mod files;
pub mod filesystem;
pub mod foreign;
pub mod hash_laws;
pub mod host_files;
pub mod host_laws;
pub mod io;
pub mod io_error;
pub mod layout_laws;
pub mod list;
pub mod list_history;
pub mod list_laws;
pub mod math;
pub mod meaning;
pub mod memory;
pub mod memory_file_laws;
pub mod memory_files;
pub mod memory_governor;
pub mod misc_laws;
pub mod number_laws;
pub mod numbers;
pub mod object;
pub mod ordering;
pub mod paths;
pub mod registry;
pub mod registry_laws;
pub mod report_laws;
pub mod scalars;
pub mod siphash;
pub mod string;
pub mod string_edit;
pub mod string_parse;
pub mod string_split;
pub mod string_store;
pub mod sums;
pub mod text;
pub mod text_laws;
pub mod time;
pub mod utf8;
pub mod words;

pub use array::AsterArray;
pub use context::{ExecutionContext, MemoryStats};
pub use dictionary::AsterDictionary;
pub use dictionary_table::DictionaryKeyKind;
pub use filesystem::{FileSystemBackend, FileSystemError};
pub use io::ConsoleBackend;
pub use io_error::{classify_io_error, PortableIoError, PortableIoErrorKind};
pub use list::AsterList;
pub use registry::{runtime_functions, RuntimeFunction, RuntimeSignature, RuntimeType};
