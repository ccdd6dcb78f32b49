pub mod changes;
pub mod graph;
pub mod jj;
pub mod languages;
pub mod parser;
pub mod session;
pub mod text;
pub mod update;
pub mod vcs;
