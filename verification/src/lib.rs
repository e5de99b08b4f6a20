//! Folder replication between computers: path and metadata models, the chunked
//! transfer state machine, local mirror planning and the broker's state and
//! message handling.

pub mod text;
pub mod relative_path;
pub mod file_metadata;
pub mod hashing;
pub mod delta;
pub mod protocol;
pub mod folder;
pub mod broker;
pub mod lookup;
pub mod folder_repo;
pub mod rsync;
pub mod origin;
pub mod local_origin;
pub mod synchronizer;
pub mod local_file_ops;
pub mod state;
pub mod file_streaming;
pub mod api;
pub mod mirror_laws;
pub mod transfer_laws;
