//! Authentication and session-token core: password verification with a
//! uniform failure policy, a signed two-token (access/refresh) scheme, and
//! server-side refresh-token rotation with single-use invalidation.

pub mod claims;
pub mod codec;
pub mod credentials;
pub mod guard;
pub mod hexfmt;
pub mod laws;
pub mod session;
pub mod store;
