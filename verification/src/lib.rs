//! Trust and resilience layer for a forwarding proxy: IP allow/deny policy,
//! per-account upstream backoff tracking, and an authenticated credential
//! codec with backward-compatible envelope formats.

pub mod crypto;
pub mod ip_filter;
pub mod rate_limit;
pub mod text;

pub use crypto::{
    decrypt_string, deserialize_password, encrypt_string, fixed_nonce, get_encryption_key,
    serialize_password,
};
pub use text::u64_to_string;
