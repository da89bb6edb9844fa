//! Content-addressed index of a directory tree.
//!
//! Every regular file gets an identity key derived from its content and base
//! name; every directory gets a recursively built record of its children.
//! The index supports a full scan and an incremental update that re-hashes
//! only files whose modification time advanced.
//!
//! Two semantics are fixed deliberately: directories never receive forward
//! entries (their structure lives only in the nested records, so an update
//! can meet a stored directory record only in a hand-made or foreign
//! index), and entries whose files have disappeared are never removed.

mod config;
mod hashing;
mod model;
mod parallel;
mod paths;
mod reconcile;
mod store;
mod traverse;

pub use config::BOFConfig;
pub use hashing::file_key;
pub use hashing::generate_key;
pub use hashing::hex_of;
pub use hashing::lemma_hex_of_len;
pub use hashing::lemma_key_identity;
pub use hashing::sha256_of;
pub use hashing::spec_file_identity;
pub use hashing::spec_file_key;
pub use hashing::spec_generate_key;
pub use model::DirEntry;
pub use model::DirEntryModel;
pub use model::DirMetaData;
pub use model::FileMetaData;
pub use model::MetaData;
pub use model::MetaModel;
pub use model::StatInfo;
pub use model::dir_entries_model;
pub use model::lemma_dir_entries_model;
pub use parallel::IndexChildAction;
pub use parallel::QueueItem;
pub use parallel::QueueItemModel;
pub use parallel::UpdateChildAction;
pub use parallel::finalize_directory;
pub use parallel::index_child_dispatch;
pub use parallel::enter_directory;
pub use parallel::drain_has_entry;
pub use parallel::drain_has_path;
pub use parallel::drain_paths_distinct;
pub use parallel::lemma_drain_forward;
pub use parallel::lemma_drain_order_insensitive;
pub use parallel::lemma_queue_items_model;
pub use parallel::process_file_child;
pub use parallel::queue_items_model;
pub use parallel::spec_drain;
pub use parallel::spec_locked_step;
pub use parallel::update_child_locked;
pub use paths::join_path;
pub use paths::parent_dir;
pub use paths::spec_join_path;
pub use paths::spec_parent_dir;
pub use reconcile::lemma_update_child_single_change;
pub use reconcile::lemma_update_children_single_change;
pub use reconcile::lemma_update_single_change;
pub use reconcile::lemma_update_synced_unchanged;
pub use reconcile::spec_replace_file;
pub use reconcile::spec_store_agrees_except;
pub use reconcile::spec_synced_child_except;
pub use reconcile::spec_synced_children_except;
pub use reconcile::spec_synced_except;
pub use reconcile::spec_update;
pub use reconcile::spec_update_child;
pub use reconcile::spec_update_children;
pub use reconcile::spec_update_roots;
pub use reconcile::update_directories;
pub use reconcile::update_tree;
pub use store::BOFEntry;
pub use store::BOFIndex;
pub use store::EntryModel;
pub use store::IntBOFIndex;
pub use store::InverseRow;
pub use store::StoreModel;
pub use store::forward_model;
pub use store::inverse_model;
pub use store::lemma_forward_model_congruent;
pub use store::lemma_forward_model_push;
pub use store::lemma_forward_model_unique;
pub use store::lemma_forward_model_update;
pub use store::lemma_inverse_model_congruent;
pub use store::lemma_inverse_model_push;
pub use store::lemma_inverse_model_unique;
pub use store::lemma_inverse_model_update;
pub use store::lemma_save_load_round_trip;
pub use store::load_indices;
pub use store::spec_add_file;
pub use store::spec_empty_store;
pub use store::spec_inverse_parents;
pub use traverse::FsChild;
pub use traverse::FsChildModel;
pub use traverse::FsNode;
pub use traverse::FsNodeModel;
pub use traverse::IndexError;
pub use traverse::fs_children_model;
pub use traverse::index_directories;
pub use traverse::index_tree;
pub use traverse::lemma_fs_children_model;
pub use traverse::lemma_index_child_describes;
pub use traverse::lemma_index_children_describes;
pub use traverse::lemma_index_describes;
pub use traverse::lemma_index_idempotent;
pub use traverse::lemma_index_ignored_root;
pub use traverse::spec_index;
pub use traverse::spec_index_child;
pub use traverse::spec_index_child_record;
pub use traverse::spec_index_children;
pub use traverse::spec_index_meta;
pub use traverse::spec_index_records;
pub use traverse::spec_index_roots;
pub use traverse::spec_index_succeeds;
pub use traverse::spec_index_writes;
pub use traverse::spec_index_writes_child;
pub use traverse::spec_index_writes_children;
