//! A puzzle registry with hash-keyed solutions: the owner registers puzzles
//! under the hex-encoded SHA-256 digest of their plaintext solution, any
//! caller may submit a guess, and the first correct guess moves the puzzle
//! from `Unsolved` to `Solved` and earns the fixed reward.

pub mod hashing;
pub mod types;
pub mod registry;
pub mod laws;

pub use hashing::solution_hash_of;
pub use types::{Answer, AnswerDirection, CoordinatePair, JsonPuzzle, Puzzle, PuzzleStatus, RegistryError, UnsolvedPuzzles};
pub use registry::{Crossword, RegistryView, PRIZE_AMOUNT};
