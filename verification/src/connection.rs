use vstd::prelude::*;
use vstd::slice::slice_subrange;

use crate::handshake::Handshake;
use crate::helpers::{
    be_val, lemma_be_val2, spec_socks_reply, u128_to_octets, u32_to_octets, Helpers, IntoError,
    Ip, Res,
};
use crate::request::{spec_request_ok, spec_request_port, Request};

verus! {

/// The two bytes the server answers a good greeting with: protocol
/// version five, no authentication required.
pub open spec fn spec_method_selection() -> Seq<u8> {
    seq![5u8, 0u8]
}

/// Whether the first `n` received bytes hold an acceptable greeting:
/// complete, and carrying protocol version five.
pub open spec fn spec_greeting_ok(data: Seq<u8>, n: int) -> bool {
    &&& n >= 2
    &&& data[0] == 5
    &&& n >= 2 + data[1]
}

/// The greeting step: checks what the first read delivered and yields the
/// parsed greeting together with the exact bytes to write back. On any
/// ill-formed greeting nothing is handed back to be written.
pub fn perform_handshake(data: &[u8], n: usize) -> (r: Res<(Handshake, Vec<u8>)>)
    requires
        n <= data@.len(),
    ensures
        r is Ok <==> spec_greeting_ok(data@, n as int),
        r is Ok ==> ({
            let h = r->Ok_0.0;
            &&& h.version == data@[0]
            &&& h.num_methods == data@[1]
            &&& h.methods@ == data@.subrange(2, 2 + data@[1] as int)
        }),
        r is Ok ==> r->Ok_0.1@ == spec_method_selection(),
{
    if n == 0 {
        return "Read 0 bytes during handshake.".into_error();
    }
    if n < 2 {
        return "Read a truncated handshake.".into_error();
    }

    if data[0] != 5 {
        return "Bad SOCKS version.".into_error();
    }

    let num_methods = data[1];
    if n < 2 + num_methods as usize {
        return "Read a truncated handshake.".into_error();
    }

    let handshake = Handshake::from_data(data);

    let mut reply: Vec<u8> = Vec::new();
    reply.push(0x05);  // version
    reply.push(0x00);  // no authentication required
    proof {
        assert(reply@ =~= spec_method_selection());
    }

    Ok((handshake, reply))
}

/// The request step: checks that the read delivered anything at all, then
/// parses the request out of exactly the received bytes.
pub fn perform_request_negotiation(data: &[u8], n: usize) -> (r: Res<Request>)
    requires
        n <= data@.len(),
    ensures
        r is Ok <==> n > 0 && spec_request_ok(data@.subrange(0, n as int)),
        r is Ok ==> ({
            let received = data@.subrange(0, n as int);
            let req = r->Ok_0;
            &&& req.version == received[0]
            &&& req.command == received[1]
            &&& req.address_type == received[3]
            &&& req.port == spec_request_port(received)
        }),
{
    if n == 0 {
        return "Read 0 bytes during connection negotiation.".into_error();
    }

    Request::from_data(slice_subrange(data, 0, n))
}

/// The dispatch on the request's command: only CONNECT proceeds. BIND,
/// UDP ASSOCIATE and anything unknown end the connection, with no reply
/// bytes sent back.
pub fn validate_command(command: u8) -> (r: Res<()>)
    ensures
        r is Ok <==> command == 1,
{
    match command {
        0x01 => Ok(()),  // CONNECT
        0x02 => "BIND requests not supported.".into_error(),
        0x03 => "UDP ASSOCIATE requests not supported.".into_error(),
        _ => "Unknown command type.".into_error(),
    }
}

/// The SOCKS reply code after a failed dial: the mapped OS error where one
/// is known, connection refused where none is.
pub fn connect_failure_reply(os_error: Option<i32>) -> (r: u8)
    ensures
        r == (match os_error {
            Some(i) => spec_socks_reply(i as int),
            None => 5u8,
        }),
{
    match os_error {
        Some(i) => Helpers::get_socks_reply(i),
        None => 5u8,  // connection refused
    }
}

/// The SOCKS reply code after the destination yielded no address to dial:
/// the mapped OS error where one is known, address type not supported
/// where none is.
pub fn resolve_failure_reply(os_error: Option<i32>) -> (r: u8)
    ensures
        r == (match os_error {
            Some(i) => spec_socks_reply(i as int),
            None => 8u8,
        }),
{
    match os_error {
        Some(i) => Helpers::get_socks_reply(i),
        None => 8u8,  // address type not supported
    }
}

/// The reply sent back after a CONNECT: version, reply code, a reserved
/// zero, then the bound address with its family tag and the bound port,
/// all big-endian. Ten bytes for an IPv4 bound address, twenty-two for an
/// IPv6 one.
pub fn build_reply(reply: u8, bound_ip: &Ip, bound_port: u16) -> (r: Vec<u8>)
    ensures
        bound_ip is V4 ==> r@.len() == 10,
        bound_ip is V6 ==> r@.len() == 22,
        r@[0] == 5 && r@[1] == reply && r@[2] == 0,
        bound_ip is V4 ==> r@[3] == 1 && be_val(r@.subrange(4, 8)) == bound_ip->V4_0 && be_val(
            r@.subrange(8, 10),
        ) == bound_port,
        bound_ip is V6 ==> r@[3] == 4 && be_val(r@.subrange(4, 20)) == bound_ip->V6_0 && be_val(
            r@.subrange(20, 22),
        ) == bound_port,
{
    let (port_high, port_low) = Helpers::port_to_bytes(bound_port);

    let mut r: Vec<u8> = Vec::new();
    r.push(0x05);  // version
    r.push(reply);
    r.push(0x00);  // reserved

    match bound_ip {
        Ip::V4(ip) => {
            r.push(0x01);  // address type: IPv4
            let mut octets = u32_to_octets(*ip);
            let ghost header = r@;
            let ghost addr = octets@;
            r.append(&mut octets);
            r.push(port_high);
            r.push(port_low);
            proof {
                assert(r@.subrange(4, 8) =~= addr);
                assert(r@.subrange(8, 10) =~= seq![port_high, port_low]);
                lemma_be_val2(seq![port_high, port_low]);
                assert(256 * (bound_port / 256) + bound_port % 256 == bound_port)
                    by (nonlinear_arith);
            }
        },
        Ip::V6(ip) => {
            r.push(0x04);  // address type: IPv6
            let mut octets = u128_to_octets(*ip);
            let ghost header = r@;
            let ghost addr = octets@;
            r.append(&mut octets);
            r.push(port_high);
            r.push(port_low);
            proof {
                assert(r@.subrange(4, 20) =~= addr);
                assert(r@.subrange(20, 22) =~= seq![port_high, port_low]);
                lemma_be_val2(seq![port_high, port_low]);
                assert(256 * (bound_port / 256) + bound_port % 256 == bound_port)
                    by (nonlinear_arith);
            }
        },
    }

    r
}

} // verus!
