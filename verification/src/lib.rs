//! A verified model of the virtual remote filesystem used by a cloud
//! storage command-line client: normalized remote paths, the join/dedot
//! walk, transfer-name resolution, and the interactive session state
//! machine that carries the working directory between commands.

pub mod credentials;
pub mod listing;
pub mod remote_path;
pub mod session;
pub mod text;
pub mod util;
