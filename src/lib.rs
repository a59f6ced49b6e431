//! The semantic core of a compiler for the Slice interface-definition language: the entity model
//! and its supported encodings, the diagnostics engine, the validators, the class slicing
//! protocol, and what code generation decides for classes and encoded results.

pub mod attributes;
pub mod class_visitor;
pub mod collect;
pub mod comments;
pub mod diagnostics;
pub mod encoded_result;
pub mod encoding;
pub mod files;
pub mod grammar;
pub mod members;
pub mod operations;
pub mod slicing;
pub mod text;
pub mod validators;
