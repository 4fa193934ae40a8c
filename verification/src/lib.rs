//! A synchronization engine for mirroring directory trees ("vaults") between
//! a server and its clients.
//!
//! The library holds the logic of the engine: the metadata model, root-relative
//! path translation, the cross-replica diff, file-identity allocation, the
//! scanner's reconciliation of disk state against the metadata store, and the
//! multi-phase protocol that decides which files move in which direction.
//! All disk, network and database access stays outside; the engine works on
//! plain values handed in by its callers.

mod client_db;
mod config;
mod coordinator;
mod decimal;
mod diff;
mod errors;
mod laws;
mod paths;
mod records;
mod report;
mod round;
mod scanner;
mod server_diff;
mod store;
mod sync_logic;

pub use client_db::{build_file_metadata_for_vault, load_file_metadata};
pub use config::{get_vault_config_hashmap, VaultConfig, VaultConfigMap};
pub use coordinator::{
    convert_root_dirs_of_metadata, insert_new_metadata_into_db,
    is_client_more_recent_than_server, save_remote_files_to_disk, SyncPhase, WriteAction,
};
pub use decimal::{i64_to_decimal, u64_to_decimal};
pub use diff::{find_by_full_path, get_metadata_diff};
pub use errors::SyncError;
pub use laws::{
    lemma_allocation_monotonic, lemma_diff_symmetry, lemma_materialize_then_scan_unchanged,
    lemma_needed_by_client_distinct, lemma_needed_by_server_distinct, lemma_newer_wins,
    lemma_second_run_empty, lemma_untracked_file_needed_by_server,
};
pub use paths::{
    convert_all_paths, convert_path_to_local, get_server_path, normalize_root, rfind_str,
};
pub use records::{
    clone_bytes, clone_metadata_vec, convert_blob_to_vec_metadata, read_all_local_file_metadata,
    FileMetadata, MetadataBlob, MetadataDiff, RemoteFile, VaultMetadata,
};
pub use report::{filter_assigned_records, format_file_list};
pub use round::{lemma_round_agreement, lemma_round_idempotent};
pub use scanner::{
    assign_file_ids, build_metadata_blob, get_file_metadata_from_path, map_metadata_query_to_blob,
    remove_old_entries_from_db, scan_vault, AllocationRole, DiskEntry, MetadataRow,
};
pub use server_diff::{get_file_differences, sort_files_by_modified_time};
pub use store::{
    insert_server_metadata_into_client_db, upsert_database, MetadataStore, UpsertOutcome,
};
pub use sync_logic::{
    build_remote_directory_structure, get_full_local_path, get_full_remote_path,
    get_list_of_files_to_update_on_local, get_list_of_files_to_update_on_remote,
    remove_path_approximate_from_config, DirectoryConfig, NamedFile,
};
