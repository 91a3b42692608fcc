//! A private media library: what it lists, how it groups it, and what it answers.
//!
//! `catalog` says what the catalog holds and what each operation makes of it; `db` does it,
//! and `consistency` proves what holds whatever is done. `library`, `scan` and `jobs` are the
//! rules for adding files, `gateway`, `uploads`, `streaming`, `range` and `posters` those of
//! the web gateway. Files, sockets and the blob store are not touched here. `laws` says what
//! the operations are for, of any call of them.

pub mod catalog;
pub mod consistency;
pub mod db;
pub mod gateway;
pub mod hashes;
pub mod jobs;
pub mod laws;
pub mod library;
pub mod listings;
pub mod mime;
pub mod natural;
pub mod node;
pub mod numbers;
pub mod options;
pub mod order;
pub mod paths;
pub mod policy;
pub mod posters;
pub mod range;
pub mod records;
pub mod scan;
pub mod streaming;
pub mod table;
pub mod tailnet;
pub mod text;
pub mod uploads;
pub mod vault;

pub use db::Db;
pub use jobs::Jobs;
pub use library::{Library, TempStagedFile};
pub use mime::{guess_mime, is_previewable_mime};
pub use policy::Policy;
pub use records::{
    Collection, CollectionDetail, CollectionItem, CollectionItemView, FileRow, SharedFile,
    FILE_KIND_FILE, FILE_KIND_MEDIA,
};
