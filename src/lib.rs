//! A suffix-stripping stemmer for Ukrainian words.
//!
//! A word is brought to a normal form (lowercase, no apostrophes, two letters
//! folded), split after its first vowel, and the part after that vowel loses
//! its grammatical endings under a fixed order of suffix rules.
pub mod catalog;
pub mod matcher;
pub mod preprocess;
pub mod replace;
pub mod stemmer;

pub use preprocess::{as_str, ukstemmer_search_preprocess};
pub use stemmer::stem_word;
