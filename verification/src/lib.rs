//! Identity resolution for folders of game-asset mods: folder names are
//! classified and matched against a catalog of characters and costumes, and
//! the results are merged into a catalog store and a mod store without
//! duplicates.
//!
//! - `text`: the normal form of a name, its words, its slug.
//! - `types`: the records that pass between the parts.
//! - `classify`: mod type and author of a folder name, by longest alias.
//! - `resolve`: best character and costume for a folder name, with a
//!   confidence.
//! - `paths`: the key under which a folder is stored.
//! - `catalog`: the catalog store and its synchronisation.
//! - `scan`: the mod store, rescan, dry run and commit.
//! - `crawler`: reading the catalog from a web page.
//! - `schema`: the versions of the store's schema.

pub mod text;
pub mod types;
pub mod classify;
pub mod resolve;
pub mod paths;
pub mod catalog;
pub mod scan;
pub mod crawler;
pub mod schema;
