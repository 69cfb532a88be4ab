//! The configuration model of the proxy and what startup takes from it.
use vstd::prelude::*;

use crate::backend::{Backend as BackendModel, BackendAddress, BackendId, Protocol, SocketAddress};
use crate::error::Error;
use crate::proxy::ListenerConfig;

verus! {

/// The name of this part of the library.
pub fn janus_config() -> (r: &'static str)
    ensures
        r@ == "janus-config"@,
{
    "janus-config"
}

/// The whole configuration: several services, each on its own address.
#[derive(Debug)]
pub struct JanusConfig {
    pub services: Vec<ServiceConfig>,
}

/// One service: where it listens, what it speaks and the backends it pools.
#[derive(Debug)]
pub struct ServiceConfig {
    pub name: String,
    pub listen_addr: SocketAddress,
    pub backends: Vec<Backend>,
    pub protocol: Protocol,
}

/// A backend as written in the configuration file.
#[derive(Debug)]
pub struct Backend {
    pub id: String,
    pub address: SocketAddress,
    pub weight: u32,
}

/// `e` is a configuration error with the message `msg`.
pub open spec fn is_config_error(e: Error, msg: Seq<char>) -> bool {
    e matches Error::Config(m) && m@ == msg
}

/// What the proxy serves at startup: the first backend of the first
/// service, behind that service's listening address.
pub fn startup_target(config: &JanusConfig) -> (r: Result<(ListenerConfig, BackendModel), Error>)
    ensures
        config.services@.len() == 0 ==> (r matches Err(e) && is_config_error(
            e,
            "no services defined"@,
        )),
        config.services@.len() > 0 && config.services@[0].backends@.len() == 0 ==> (r matches Err(
            e,
        ) && is_config_error(e, "no backends defined"@)),
        config.services@.len() > 0 && config.services@[0].backends@.len() > 0 ==> (r matches Ok(
            (listener, backend),
        ) && {
            let service = config.services@[0];
            let first = service.backends@[0];
            &&& listener.listen_addr == service.listen_addr
            &&& backend.id.0@ == first.id@
            &&& backend.address.0 == first.address
            &&& backend.weight == first.weight
        }),
{
    if config.services.len() == 0 {
        return Err(Error::Config(String::from_str("no services defined")));
    }
    let service = &config.services[0];
    if service.backends.len() == 0 {
        return Err(Error::Config(String::from_str("no backends defined")));
    }
    let first = &service.backends[0];
    let listener = ListenerConfig { listen_addr: service.listen_addr };
    let backend = BackendModel {
        id: BackendId(first.id.clone()),
        address: BackendAddress(first.address),
        weight: first.weight,
    };
    Ok((listener, backend))
}

} // verus!
