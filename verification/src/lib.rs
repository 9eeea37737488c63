//! Grouping of sample files by the prefix of their header file, and
//! extraction of one column from comma-separated text.

pub mod error;
pub mod naming;
pub mod grouping;
pub mod column;
