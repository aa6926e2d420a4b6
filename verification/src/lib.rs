//! Memory-scanning engine: byte-pattern matching, region walks that scan a
//! process for patterns, values and pointers, iterative differential
//! filtering, heuristic discovery, process listing, the terminal command
//! interpreter and the decisions of the front end, stated and proved with
//! Verus.

pub mod shared;
pub mod text;
pub mod numbers;
pub mod encoding;
pub mod aob;
pub mod region;
pub mod walk;
pub mod manual;
pub mod differential;
pub mod discovery;
pub mod memory;
pub mod scripting;
pub mod processes;
pub mod frontend;
pub mod console;
