//! Rule-driven rewriting of item records inside tagged save documents.

pub mod tag;
pub mod rules;
pub mod rewrite;
pub mod region;
pub mod laws;
pub mod compression;
