//! Corpus statistics: word-frequency tables and longest-record tracking over
//! shards of articles, with the merge and scheduling rules that combine
//! per-shard results into one aggregate, and the reports that they are
//! written out as.
//!
//! Beside them stand smaller modules on text and numbers: Base64 and ROT13,
//! lines and fields, primes and coprime numbers, arithmetic that reports its
//! overflow, the game of life, and the parts of a command terminal.

pub mod abbreviations;
pub mod article;
pub mod ascii;
pub mod base64;
pub mod cache;
pub mod checked;
pub mod coprime;
pub mod fields;
pub mod formatting;
pub mod frequency;
pub mod guarded;
pub mod hosts;
pub mod life;
pub mod lines;
pub mod longest;
pub mod opinion;
pub mod paths;
pub mod primes;
pub mod report;
pub mod rot13;
pub mod scheduler;
pub mod stats;
pub mod strings;
pub mod students;
pub mod terminal;
pub mod word_count;
pub mod words;
