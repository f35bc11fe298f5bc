//! The logic of a port redirector for TCP and UDP: which target a client is
//! connected to, what it is answered while no target can be reached, how its
//! traffic is shaped, and how redirects are configured.
//!
//! The functions here take what has been read and return what is to be sent,
//! opened or said; sockets, files and processes are left to the program that
//! uses them.

pub mod bytes;
pub mod cli;
pub mod client_map;
pub mod config;
pub mod conn_worker;
pub mod connections;
pub mod edit_config;
pub mod install;
pub mod json;
pub mod net;
pub mod notify;
pub mod plugin;
pub mod plugins;
pub mod proctitle;
pub mod proxy;
pub mod service_ctl;
pub mod shaping;
pub mod text;
pub mod time;
pub mod udp_laws;
pub mod udp_proxy;
pub mod udp_relay;
pub mod varint;
pub mod version;
