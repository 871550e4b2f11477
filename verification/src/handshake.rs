use vstd::prelude::*;
use vstd::slice::{slice_subrange, slice_to_vec};

verus! {

/// The client's opening message: its protocol version and the
/// authentication methods it offers.
pub struct Handshake {
    pub version: u8,
    pub num_methods: u8,
    pub methods: Vec<u8>,
}

impl Handshake {
    /// Reads the greeting out of a buffer; the caller has already checked
    /// that the buffer holds the advertised number of methods.
    pub fn from_data(data: &[u8]) -> (h: Handshake)
        requires
            data@.len() >= 2,
            data@.len() >= 2 + data@[1],
        ensures
            h.version == data@[0],
            h.num_methods == data@[1],
            h.methods@ == data@.subrange(2, 2 + data@[1] as int),
    {
        let version = data[0];
        let num_methods = data[1];
        let methods = slice_to_vec(slice_subrange(data, 2, 2 + num_methods as usize));

        Handshake { version, num_methods, methods }
    }
}

} // verus!
