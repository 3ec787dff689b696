//! Extractors, one module for each document they read.

pub mod sttm;
