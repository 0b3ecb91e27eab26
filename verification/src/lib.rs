pub mod analyzer;
pub mod assembly;
pub mod coordination;
pub mod errors;
pub mod laws;
pub mod periodic_table;
pub mod perms;
pub mod planes;
pub mod rmsd;
pub mod search;
pub mod structures;
