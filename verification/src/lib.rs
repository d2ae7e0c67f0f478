//! Named HTTP requests with layered template substitution.
//!
//! A request's text fields may hold `{key}` tokens, filled from an ordered
//! list of environments, and `{response:name:path}` tokens, filled from the
//! stored responses of earlier requests. This library holds the rules of
//! both substitutions and of turning a resolved request into what is sent;
//! reading files and talking to servers is left to the caller.

pub mod bridge;
pub mod dict;
pub mod environment;
pub mod error;
pub mod project;
pub mod request;
pub mod responses;
pub mod text;
