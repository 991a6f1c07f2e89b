pub mod codec;
pub mod index;
pub mod utf8;
pub mod windows1252;
