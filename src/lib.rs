//! Phonetic fingerprints of short strings, packed into fixed-width unsigned
//! integers, and a "sounds-like" search over a collection sorted by them.

pub mod elem;
pub mod packing;
pub mod repr;
pub mod normalize;
pub mod phonemes;
pub mod search;
pub mod laws;
pub mod prefix;
