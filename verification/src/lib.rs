//! Walkthroughs of the standard collections: growable vectors, UTF-8 text and
//! hash maps, each operation with a contract stating what it returns or changes.

pub mod hash_maps;
pub mod strings;
pub mod vectors;
pub mod words;
