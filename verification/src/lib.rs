//! Verified core of a competitive-programming judge: the C++ memory layout
//! used to pass values to and from WebAssembly guests, the parsing of
//! compiler diagnostics, the bookkeeping of test results, and the access
//! rules of the web service.
use vstd::prelude::*;

pub mod bytes;
pub mod layout;
pub mod roundtrip;
pub mod function;
pub mod text;
pub mod diagnostics;
pub mod judge;
pub mod compile;
pub mod complexity;
pub mod auth;
pub mod service;
pub mod laws;
pub mod words;
pub mod convert;

verus! {
} // verus!
