//! Verified core of the Aruna data proxy: byte-range arithmetic, token and
//! intent handling, and the bookkeeping around S3 multipart uploads.
#![allow(unused_imports)]

pub mod auth;
pub mod cache;
pub mod decimal;
pub mod footer;
pub mod ids;
pub mod proxy;
pub mod ranges;
pub mod storage;
pub mod sync;
pub mod text;
