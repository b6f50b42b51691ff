use vstd::prelude::*;

pub mod chat;
pub mod files;
pub mod fmt;
pub mod json;
pub mod models;
pub mod node;
pub mod pattern;
pub mod protocols;
pub mod readonly;
pub mod sandbox;
pub mod skills;
pub mod sort;
pub mod sse;
pub mod state;
pub mod text;
pub mod tools;
pub mod walk;
pub mod workspace;
pub mod write;

verus! {

} // verus!
