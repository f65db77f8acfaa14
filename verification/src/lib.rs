//! Art-collection organizer: the piece/blob/tag/category database, the
//! search language and its evaluation, where a database lives on disk, and
//! what the application's screens show and how the user moves between them.

pub mod backend;
pub mod command;
pub mod db;
pub mod editing;
pub mod entities;
pub mod execute;
pub mod first_time;
pub mod frontend;
pub mod grammar;
pub mod images;
pub mod laws;
pub mod listing;
pub mod model;
pub mod parse;
pub mod relation;
pub mod responses;
pub mod settings;
pub mod sorting;
pub mod summary;
pub mod table;
pub mod traits;
pub mod v1;
pub mod views;
