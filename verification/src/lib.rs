//! A dynamic-DNS reconciler for Tencent Cloud DNSPod: request signing,
//! discovery of the local IPv6 addresses of an interface, and the decision
//! whether and how the provider's AAAA records have to change.

pub mod address;
pub mod client;
pub mod reconcile;
pub mod response;
pub mod text;
pub mod tick;

pub use client::TencentCloudClient;
