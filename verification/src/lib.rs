//! Verified core of the object-storage workspace: key and path arithmetic,
//! listing order, filtering, selection semantics and user-facing texts.

pub mod text;
pub mod model;
pub mod format;
pub mod paths;
pub mod sort;
pub mod filter;
pub mod key_set;
pub mod selection;
pub mod buckets;
pub mod listing;
pub mod rename;
pub mod folder;
pub mod copy_move;
pub mod delete;
pub mod batch;
pub mod download;
pub mod menus;
pub mod preview;
pub mod details;
pub mod text_edit;
pub mod file_type;
pub mod upload;
pub mod settings;
pub mod appearance;
pub mod transfers;
pub mod nav;
pub mod quit;
pub mod status_bar;
pub mod laws;
