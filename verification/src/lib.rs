//! An AWS Signature Version 4 (SigV4) verifying and re-signing engine for a
//! streaming reverse proxy: authorization-header parsing, canonical-request
//! construction, signing-key derivation, signature generation and
//! constant-time verification, host rewriting with re-signing, a sliding
//! window rate limiter, and the request-gating pipeline that composes them.
pub mod auth;
pub mod bytes;
pub mod canonical;
pub mod engine;
pub mod crypto;
pub mod errors;
pub mod names;
pub mod pipeline;
pub mod rate_limiter;
pub mod rewrite;
