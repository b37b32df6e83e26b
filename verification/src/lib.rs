//! Discovery, classification and enumeration of native test executables.
//!
//! The library inspects 64-bit ELF images well enough to locate their
//! symbol and string tables, classifies each binary by the test framework
//! it links (GoogleTest or Catch2), turns framework self-listings into a
//! catalog of runnable test records, and aggregates run outcomes.
//!
//! All logic here is pure: file contents, process output and listings come
//! in as plain values, so every function can be verified. Reading files,
//! walking directories and spawning processes live outside the library.

pub mod bytes;
pub mod elf;
pub mod types;
pub mod executable_finder;
pub mod filter;
pub mod test_parser;
pub mod test_runner;

use vstd::prelude::*;

verus! {

/// Why a candidate file was rejected or an operation failed.
#[derive(Debug, Clone, Copy, PartialEq, Eq, Structural)]
pub enum Error {
    /// The file is too short or lacks the ELF magic signature.
    NotABinary,
    /// The file is an ELF image but not of the 64-bit class.
    Unsupported64Bit,
    /// A declared table lies outside the bounds of the image.
    IoFailure,
    /// The image claims a symbol table but its string-table link is invalid.
    MalformedBinary,
    /// A child process exited unsuccessfully during introspection.
    ProcessFailed,
    /// Structured text did not parse: introspection output that does
    /// not match the expected shape, or a filter pattern the regular
    /// expression engine rejects.
    ParseFailed,
    /// An explicitly supplied candidate is not a test executable.
    NotATestExecutable,
}

} // verus!
