//! Decoder implementations.

pub mod k8s_openapi;
pub mod serde_json;
pub mod tokio_util;
