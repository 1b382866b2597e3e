//! Operations on texts, each defined over `Seq<char>` and carried out on
//! `Vec<char>`.

pub mod chars;
pub mod decimal;
pub mod search;
pub mod space;
pub mod split;
