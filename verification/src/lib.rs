//! Role-scoped authentication: one-way password hashing, signed expiring
//! tokens with two independent secret domains per role, login/refresh
//! orchestration, and role-gated request authorization, together with the
//! quest-board use cases built on the same account stores.

pub mod adventures;
pub mod argon2_hashing;
pub mod authentication;
pub mod authorization;
pub mod base64url;
pub mod board_checking_filter;
pub mod claims;
pub mod clock;
pub mod crew_swithboard;
pub mod digits;
pub mod entities;
pub mod errors;
pub mod guild_commanders;
pub mod mac;
pub mod quest_statuses;
pub mod quest_viewing;
pub mod repositories;
pub mod roles;
pub mod secrets;
pub mod token;

pub use errors::{AuthError, TokenError};
pub use roles::Role;
