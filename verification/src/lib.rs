pub mod entry;
pub mod error;
pub mod git;
pub mod options;
pub mod path;
pub mod printer;
pub mod searcher;
pub mod revision;
pub mod walk;
