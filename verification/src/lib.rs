//! Folder-name parsing and ComicInfo.xml generation for comic book archives:
//! the verified core of a CBZ converter.
pub mod text;
pub mod models;
pub mod parser;
pub mod metadata;
pub mod comicinfo_import;
pub mod settings;
pub mod library;
pub mod converter;
pub mod natural;
pub mod dropped;
