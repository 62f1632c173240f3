//! The protocol and decision logic of an SSTP VPN client.

pub mod addr;
pub mod chap;
pub mod chap_fsm;
pub mod cmac;
pub mod config;
pub mod connection;
pub mod cp;
pub mod crypto;
pub mod elevate;
pub mod engine;
pub mod entropy;
pub mod http;
pub mod i18n;
pub mod ipc;
pub mod ipcp;
pub mod keychain;
pub mod lcp;
pub mod log;
pub mod mppe;
pub mod packet;
pub mod ppp;
pub mod route;
pub mod startup;
pub mod status;
pub mod teardown;
pub mod text;
pub mod utun;
pub mod wire;
pub mod worker;
