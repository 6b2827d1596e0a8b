//! A verified core for an authorizing, signing reverse proxy in front of an
//! S3-compatible object store: a line-oriented rule language with its matcher,
//! an AWS Signature Version 4 signer, and the per-request decisions of the
//! forwarding pipeline.

pub mod authorize;
pub mod canon;
pub mod crypto;
pub mod rules;
pub mod sign;
pub mod text;
