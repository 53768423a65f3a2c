//! Shell settings and the files read at startup.

pub mod options;
pub mod startup;
