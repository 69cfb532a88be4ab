//! Janus: the verified core of a TCP and HTTP/1.1 reverse proxy and load balancer.

pub mod error;
pub mod text;
pub mod http;
pub mod proxy;
pub mod backend;
pub mod balancer;
pub mod health;
pub mod exchange;
pub mod config;
pub mod cli;
