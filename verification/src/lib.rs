//! Conversion of scraped gallery metadata into fixed-schema comic-library
//! metadata.
//!
//! The heart of the crate is the tag-taxonomy projection: an open-ended,
//! typed tag list is partitioned, filtered, sorted and flattened into the
//! handful of string fields that the target schema offers, and a single
//! canonical language code is derived from the language tags.

pub mod text;
pub mod tags;
pub mod comicinfo;

pub use tags::Tag;
pub use tags::filter_and_combine_tags;
pub use tags::language_iso;
pub use comicinfo::ComicInfo;
pub use comicinfo::Hentai;
pub use comicinfo::UploadDate;
