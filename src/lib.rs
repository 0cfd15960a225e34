//! Repair of key-value translation files whose keys were damaged by machine
//! translation: a reference document supplies the keys, in order, and each
//! translated line keeps only its value and is re-keyed by position.

pub mod text;
pub mod repair;
pub mod keys;
pub mod realign;
