use vstd::prelude::*;
use vstd::slice::slice_subrange;
use vstd::utf8::{decode_utf8, valid_utf8};

use crate::helpers::{be_val, Helpers, IntoError, Res};

verus! {

/// Where the client asks to be connected.
pub enum Destination {
    /// An IPv4 address as its big-endian numeric value.
    Ipv4Addr(u32),
    /// An IPv6 address as its big-endian numeric value.
    Ipv6Addr(u128),
    /// A host name, to be resolved at dial time.
    Domain(String),
}

/// The client's request: command, address type, destination and port.
pub struct Request {
    pub version: u8,
    pub command: u8,
    pub reserved: u8,
    pub address_type: u8,
    pub port: u16,
    pub destination: Destination,
}

/// Whether `data` begins with a complete, structurally valid request.
pub open spec fn spec_request_ok(data: Seq<u8>) -> bool {
    &&& data.len() >= 4
    &&& {
        ||| (data[3] == 1 && data.len() >= 10)
        ||| (data[3] == 3 && data.len() >= 5 && data.len() >= 7 + data[4] && valid_utf8(
            data.subrange(5, 5 + data[4] as int),
        ))
        ||| (data[3] == 4 && data.len() >= 22)
    }
}

/// The port field's position depends on the address type.
pub open spec fn spec_request_port(data: Seq<u8>) -> nat
    recommends
        spec_request_ok(data),
{
    if data[3] == 1 {
        be_val(data.subrange(8, 10))
    } else if data[3] == 3 {
        be_val(data.subrange(5 + data[4], 7 + data[4]))
    } else {
        be_val(data.subrange(20, 22))
    }
}

/// Relies on std::str::from_utf8: it accepts exactly the valid UTF-8 byte
/// strings, and decodes them to their characters.
#[verifier::external_body]
fn decode_domain(bytes: &[u8]) -> (r: Option<String>)
    ensures
        r is Some <==> valid_utf8(bytes@),
        r is Some ==> r->Some_0@ == decode_utf8(bytes@),
{
    std::str::from_utf8(bytes).ok().map(|s| s.to_owned())
}

impl Request {
    /// Parses a request; anything incomplete, of an unknown address type,
    /// or carrying a malformed domain name is reported as corrupt.
    pub fn from_data(data: &[u8]) -> (r: Res<Self>)
        ensures
            r is Ok <==> spec_request_ok(data@),
            r is Ok ==> ({
                let req = r->Ok_0;
                &&& req.version == data@[0]
                &&& req.command == data@[1]
                &&& req.reserved == data@[2]
                &&& req.address_type == data@[3]
                &&& req.port == spec_request_port(data@)
            }),
            r is Ok && data@[3] == 1 ==> r->Ok_0.destination == Destination::Ipv4Addr(
                be_val(data@.subrange(4, 8)) as u32,
            ),
            r is Ok && data@[3] == 3 ==> (r->Ok_0.destination matches Destination::Domain(name)
                && name@ == decode_utf8(data@.subrange(5, 5 + data@[4] as int))),
            r is Ok && data@[3] == 4 ==> r->Ok_0.destination == Destination::Ipv6Addr(
                be_val(data@.subrange(4, 20)) as u128,
            ),
    {
        if data.len() < 4 {
            return "Unknown request type, or data corrupt.".into_error();
        }

        let version = data[0];
        let command = data[1];
        let reserved = data[2];
        let address_type = data[3];

        if address_type == 0x01  /* IPv4 */ {
            if data.len() < 10 {
                return "Unknown request type, or data corrupt.".into_error();
            }
            let address = match Helpers::slice_to_u32(slice_subrange(data, 4, 8)) {
                Ok(v) => v,
                Err(e) => return Err(e),
            };
            let port = match Helpers::bytes_to_port(slice_subrange(data, 8, 10)) {
                Ok(p) => p,
                Err(e) => return Err(e),
            };

            return Ok(Request {
                version,
                command,
                reserved,
                address_type,
                port,
                destination: Destination::Ipv4Addr(address),
            });
        }

        if address_type == 0x03  /* domain name */ {
            if data.len() < 5 {
                return "Unknown request type, or data corrupt.".into_error();
            }
            let name_length = data[4] as usize;
            if data.len() < 7 + name_length {
                return "Unknown request type, or data corrupt.".into_error();
            }
            let name = match decode_domain(slice_subrange(data, 5, 5 + name_length)) {
                Some(s) => s,
                None => return "Unknown request type, or data corrupt.".into_error(),
            };
            let port = match Helpers::bytes_to_port(
                slice_subrange(data, 5 + name_length, 7 + name_length),
            ) {
                Ok(p) => p,
                Err(e) => return Err(e),
            };

            return Ok(Request {
                version,
                command,
                reserved,
                address_type,
                port,
                destination: Destination::Domain(name),
            });
        }

        if address_type == 0x04  /* IPv6 */ {
            if data.len() < 22 {
                return "Unknown request type, or data corrupt.".into_error();
            }
            let address = match Helpers::slice_to_u128(slice_subrange(data, 4, 20)) {
                Ok(v) => v,
                Err(e) => return Err(e),
            };
            let port = match Helpers::bytes_to_port(slice_subrange(data, 20, 22)) {
                Ok(p) => p,
                Err(e) => return Err(e),
            };

            return Ok(Request {
                version,
                command,
                reserved,
                address_type,
                port,
                destination: Destination::Ipv6Addr(address),
            });
        }

        "Unknown request type, or data corrupt.".into_error()
    }
}

} // verus!
