//! A small Java class-file loader and bytecode interpreter, with its parsing
//! and execution rules stated as contracts and proved.
#![allow(non_camel_case_types)]

pub mod error;
pub mod reader;
pub mod constpool;
pub mod attributes;
pub mod stubs;
pub mod method;
pub mod class;
pub mod classruntime;
pub mod javafunctionsrs;
pub mod interp;
pub mod old_main;
