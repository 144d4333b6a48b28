//! Verified core of a desktop controller for a Yggdrasil-ng overlay node:
//! connection settings, the local HTTP/SOCKS5 proxy's request handling, the
//! overlay DNS client, peer discovery bookkeeping and the backend's decisions.

pub mod config;
pub mod text;
pub mod net;
pub mod urls;
pub mod dns;
pub mod proxy;
pub mod discovery;
pub mod peers;
pub mod backend;
pub mod privileged;
pub mod ui;
pub mod system_proxy;
