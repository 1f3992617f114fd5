//! Durable state of a Photo Library: the rules that decide what a request to
//! the state owner changes, what it is answered, and what is left untouched.
//!
//! Every module holds plain values. Reading and writing the database, the
//! clock, random numbers and the file system belong to the program around the
//! library, which hands over what it read and carries out what was decided.
pub mod text;
pub mod numeral;
pub mod error;
pub mod versions;
pub mod limits;
pub mod album;
pub mod album_state;
pub mod album_change;
pub mod album_checked;
pub mod album_laws;
pub mod album_order;
pub mod codec;
pub mod photo_state;
pub mod photo_change;
pub mod photo_decision;
pub mod order;
pub mod removal;
pub mod restore;
pub mod path;
pub mod capture_bound;
pub mod query;
pub mod query_source;
pub mod identity;
pub mod binary;
pub mod scan_state;
pub mod scan;
pub mod scan_laws;
pub mod manual_recovery;
pub mod manual_recovery_laws;
pub mod sorting;
pub mod snapshot;
pub mod recovery;
pub mod schema;
pub mod startup;
pub mod legacy;
pub mod split_pairs;
pub mod expansion;
pub mod binding;
pub mod json;
pub mod edit_recipe;
pub mod export;
pub mod export_store;
pub mod export_change;
pub mod photo_read;
pub mod removed_page;
pub mod admission;
pub mod owner;
pub mod dispatch;
