//! Fetch-and-unpack library core: parallel download planning with
//! destination-name conflict resolution, and an archive extraction pipeline
//! driven by filename format sniffing.
//!
//! The verified library holds the decision logic: de-duplication of source
//! lists, derivation of destination file names, collision resolution under a
//! configurable policy, the extension-suffix grammar, extraction dispatch,
//! and in-memory decompression. The surrounding program performs the network
//! transfers and filesystem work and feeds their results back in.

pub mod chars;
pub mod codec;
pub mod download;
pub mod extract;
pub mod paths;
pub mod resolve;
pub mod sniff;
