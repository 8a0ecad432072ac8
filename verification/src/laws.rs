//! What the operations of the library are for, stated over what goes in and what comes out.

pub mod fields;
pub mod agent;
pub mod claims;
pub mod fabrication;
pub mod hooks;
pub mod session;
pub mod sse;
pub mod surroundings;
pub mod texts;
pub mod tools;
