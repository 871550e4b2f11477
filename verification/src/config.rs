use vstd::prelude::*;

verus! {

pub const DEFAULT_PORT: u16 = 1080;

pub const DEFAULT_BUFFER_SIZE: usize = 2048;

pub const DEFAULT_READ_TIMEOUT: u64 = 5000;

/// A configuration source in which every key may be absent.
pub struct OptionalConfig {
    pub listen_interface: Option<String>,
    pub endpoint_interface: Option<String>,
    pub port: Option<u16>,
    pub buffer_size: Option<usize>,
    pub read_timeout: Option<u64>,
    pub accept_cidr: Option<String>,
}

/// The settled configuration, after interface names were resolved to
/// addresses.
pub struct Config {
    pub listen_ip: String,
    pub endpoint_ip: String,
    pub port: u16,
    pub buffer_size: usize,
    pub read_timeout: u64,
    pub accept_cidr: String,
}

/// The settled choices before any interface lookup: interface names may
/// stay absent, which means the wildcard address.
pub struct ResolvedSettings {
    pub listen_interface: Option<String>,
    pub endpoint_interface: Option<String>,
    pub port: u16,
    pub buffer_size: usize,
    pub read_timeout: u64,
    pub accept_cidr: String,
}

pub open spec fn spec_or<T>(a: Option<T>, b: Option<T>) -> Option<T> {
    if a is Some {
        a
    } else {
        b
    }
}

pub open spec fn spec_pick<T>(file: Option<T>, env: Option<T>, default: T) -> T {
    match file {
        Some(v) => v,
        None => match env {
            Some(v) => v,
            None => default,
        },
    }
}

/// Settles each setting with the precedence file value over environment
/// value over default. The environment counts only when a file was given
/// at all; with no file every setting is its default.
pub fn resolve_settings(file: Option<OptionalConfig>, env: OptionalConfig) -> (r: ResolvedSettings)
    ensures
        file is None ==> r.listen_interface is None && r.endpoint_interface is None && r.port
            == DEFAULT_PORT && r.buffer_size == DEFAULT_BUFFER_SIZE && r.read_timeout
            == DEFAULT_READ_TIMEOUT && r.accept_cidr@ == "0.0.0.0/0"@,
        file matches Some(f) ==> ({
            &&& r.listen_interface == spec_or(f.listen_interface, env.listen_interface)
            &&& r.endpoint_interface == spec_or(f.endpoint_interface, env.endpoint_interface)
            &&& r.port == spec_pick(f.port, env.port, DEFAULT_PORT)
            &&& r.buffer_size == spec_pick(f.buffer_size, env.buffer_size, DEFAULT_BUFFER_SIZE)
            &&& r.read_timeout == spec_pick(f.read_timeout, env.read_timeout, DEFAULT_READ_TIMEOUT)
            &&& (match spec_or(f.accept_cidr, env.accept_cidr) {
                Some(s) => r.accept_cidr == s,
                None => r.accept_cidr@ == "0.0.0.0/0"@,
            })
        }),
{
    match file {
        None => ResolvedSettings {
            listen_interface: None,
            endpoint_interface: None,
            port: DEFAULT_PORT,
            buffer_size: DEFAULT_BUFFER_SIZE,
            read_timeout: DEFAULT_READ_TIMEOUT,
            accept_cidr: "0.0.0.0/0".to_owned(),
        },
        Some(f) => {
            let listen_interface = match f.listen_interface {
                Some(v) => Some(v),
                None => env.listen_interface,
            };
            let endpoint_interface = match f.endpoint_interface {
                Some(v) => Some(v),
                None => env.endpoint_interface,
            };
            let port = match f.port {
                Some(v) => v,
                None => match env.port {
                    Some(v) => v,
                    None => DEFAULT_PORT,
                },
            };
            let buffer_size = match f.buffer_size {
                Some(v) => v,
                None => match env.buffer_size {
                    Some(v) => v,
                    None => DEFAULT_BUFFER_SIZE,
                },
            };
            let read_timeout = match f.read_timeout {
                Some(v) => v,
                None => match env.read_timeout {
                    Some(v) => v,
                    None => DEFAULT_READ_TIMEOUT,
                },
            };
            let accept_cidr = match f.accept_cidr {
                Some(v) => v,
                None => match env.accept_cidr {
                    Some(v) => v,
                    None => "0.0.0.0/0".to_owned(),
                },
            };

            ResolvedSettings {
                listen_interface,
                endpoint_interface,
                port,
                buffer_size,
                read_timeout,
                accept_cidr,
            }
        },
    }
}

} // verus!
