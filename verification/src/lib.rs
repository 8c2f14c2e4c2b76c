//! Describes a Postman collection as an OpenAPI interface.
//!
//! `Transpiler::try_transpile` takes a collection (`postman`) and gives its
//! description (`openapi`), or says why there is none (`fault`). The requests
//! are read one after the other (`collection`): each becomes an operation on a
//! path (`operations`), with its parameters (`parameters`), its body (`body`),
//! its responses (`responses`) and what it requires (`security`). Examples
//! become schemas (`schema`). What the description of the collection says of
//! its parts is read as notes (`notes`), and the variables of the collection
//! are replaced (`context`).
//!
//! The contract of each function gives its result as a spec function of its
//! arguments, over the deep views of what goes in and comes out. What holds of
//! every description is proved in `laws` and `order`, and of its parts beside
//! them.

pub use crate::context::Transpiler;
pub use crate::options::{TargetFormat, TranspileOptions};

pub mod body;
pub mod casing;
pub mod collection;
pub mod context;
pub mod fault;
pub mod json;
pub mod laws;
pub mod map;
pub mod notes;
pub mod number;
pub mod openapi;
pub mod operations;
pub mod options;
pub mod order;
pub mod parameters;
pub mod pattern;
pub mod postman;
pub mod responses;
pub mod schema;
pub mod security;
pub mod state;
pub mod text;
