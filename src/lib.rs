//! File-system boundary of an audio editor: display names of paths,
//! directory listings in presentation order, and the header of the
//! float WAV files it writes.

pub mod error;
pub mod listing;
pub mod path;
pub mod wav;

pub use error::{FsError, PathFault};
pub use listing::{sort_entries, sorted_names};
pub use path::{final_component_of, name, resolve_name};
