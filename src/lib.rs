//! Request authentication for an S3-compatible object gateway, together with
//! the gateway's configuration and metadata types.
pub mod text;
pub mod crypto;
pub mod encode;
pub mod canonical;
pub mod sigv4;
pub mod soundness;
pub mod config;
pub mod frame;
pub mod gateway;
pub mod metadata;
pub mod server;
pub mod writer;
