//! Verified core of the PermuteMMO user interface: the word lists it shows,
//! the spawner descriptions it reads, the seeds it parses and prints, and the
//! result lines it builds from a permutation.
pub mod text;
pub mod hex;
pub mod spawner;
pub mod results;
pub mod session;
