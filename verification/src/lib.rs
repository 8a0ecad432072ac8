//! The logic of lazar, a small self-evolving agent harness.
//!
//! Everything here computes on plain values: text, numbers, lists and the
//! JSON model of [`json`]. Reading files, spawning processes, talking to the
//! network and printing are left to the program around the library.

pub mod text;
pub mod numbers;
pub mod offsets;
pub mod json;
pub mod fabrication;
pub mod paths;
pub mod claims;
pub mod hooks;
pub mod tools;
pub mod sandbox;
pub mod session;
pub mod indexed;
pub mod sse;
pub mod home;
pub mod logs;
pub mod prompt;
pub mod agent;
pub mod invocation;
pub mod laws;
