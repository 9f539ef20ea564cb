pub mod chars;
pub mod discovery;
pub mod error;
pub mod records;
pub mod schema;
pub mod seqs;
pub mod templates;
pub mod utils;
pub mod walker;
pub mod xml;
