//! Terraform plan comprehension: the verified core of pliny.

pub mod sequences;
pub mod text;
pub mod json;
pub mod plan;
pub mod groups;
pub mod digest;
pub mod masking;
pub mod llm;
pub mod shell;
pub mod runner;
pub mod workspace;
pub mod tree;
pub mod cli;
pub mod ui;
pub mod screen;
pub mod fixture;
