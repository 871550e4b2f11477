use rand::Rng;
use vstd::prelude::*;
use vstd::slice::{slice_subrange, slice_to_vec};

verus! {

/// An IP address reduced to its numeric value, big-endian.
pub enum Ip {
    V4(u32),
    V6(u128),
}

/// An admission prefix: the pre-masked prefix and the mask, per family.
pub enum Cidr {
    V4(u32, u32),
    V6(u128, u128),
}

impl Cidr {
    /// The prefix is stored pre-masked, so that membership is a single
    /// mask-and-compare.
    pub open spec fn wf(&self) -> bool {
        match *self {
            Cidr::V4(prefix, mask) => prefix & mask == prefix,
            Cidr::V6(prefix, mask) => prefix & mask == prefix,
        }
    }

    pub open spec fn spec_trivial(&self) -> bool {
        match *self {
            Cidr::V4(_, mask) => mask == 0,
            Cidr::V6(_, mask) => mask == 0,
        }
    }

    /// A trivial CIDR has mask zero and matches everything of its family.
    pub fn is_trivial(&self) -> (r: bool)
        ensures
            r == self.spec_trivial(),
    {
        match self {
            Cidr::V4(_, mask) => *mask == 0,
            Cidr::V6(_, mask) => *mask == 0,
        }
    }
}

pub open spec fn same_family(ip: Ip, cidr: Cidr) -> bool {
    (ip is V4 && cidr is V4) || (ip is V6 && cidr is V6)
}

/// Membership of an address in a CIDR of the same family: the masked
/// address equals the stored prefix.
pub open spec fn spec_in_cidr(ip: Ip, cidr: Cidr) -> bool {
    match (ip, cidr) {
        (Ip::V4(a), Cidr::V4(prefix, mask)) => (a & mask) == prefix,
        (Ip::V6(a), Cidr::V6(prefix, mask)) => (a & mask) == prefix,
        _ => false,
    }
}

/// The IPv4 mask with the top `bits` bits set, saturating at all ones.
pub open spec fn spec_mask_v4(bits: u32) -> u32
    recommends
        bits <= 32,
{
    if bits == 0 {
        0u32
    } else {
        !(((1u32 << ((32 - bits) as u32)) - 1) as u32)
    }
}

/// The IPv6 mask with the top `bits` bits set, saturating at all ones.
pub open spec fn spec_mask_v6(bits: u32) -> u128
    recommends
        bits <= 128,
{
    if bits == 0 {
        0u128
    } else {
        !(((1u128 << ((128 - bits) as u128)) - 1) as u128)
    }
}

/// A trivial well-formed CIDR admits every address of its family.
pub proof fn lemma_trivial_cidr_matches(ip: Ip, cidr: Cidr)
    requires
        cidr.wf(),
        cidr.spec_trivial(),
        same_family(ip, cidr),
    ensures
        spec_in_cidr(ip, cidr),
{
    match (ip, cidr) {
        (Ip::V4(a), Cidr::V4(prefix, mask)) => {
            assert(a & 0 == 0) by (bit_vector);
            assert(prefix & 0 == 0) by (bit_vector);
        },
        (Ip::V6(a), Cidr::V6(prefix, mask)) => {
            assert(a & 0 == 0) by (bit_vector);
            assert(prefix & 0 == 0) by (bit_vector);
        },
        _ => {},
    }
}

/// Error type carried by every fallible operation of this crate.
#[derive(Debug)]
pub struct GenericError {
    message: String,
}

impl GenericError {
    pub closed spec fn spec_message(&self) -> Seq<char> {
        self.message@
    }

    pub fn from_text(message: &str) -> (e: GenericError)
        ensures
            e.spec_message() == message@,
    {
        GenericError { message: message.to_owned() }
    }

    pub fn message(&self) -> (m: &String)
        ensures
            m@ == self.spec_message(),
    {
        &self.message
    }
}

pub type Res<T> = Result<T, GenericError>;

pub type Void = Res<()>;

/// Turns a message into an `Err` of the crate's error type.
pub trait IntoError<T>: Sized {
    fn into_error(self) -> (r: Res<T>)
        ensures
            r is Err,
    ;
}

impl<T> IntoError<T> for &str {
    fn into_error(self) -> (r: Res<T>) {
        Err(GenericError::from_text(self))
    }
}

/// The big-endian (network order) value of a byte string.
pub open spec fn be_val(s: Seq<u8>) -> nat
    decreases s.len(),
{
    if s.len() == 0 {
        0
    } else {
        (256 * be_val(s.drop_last()) + s.last()) as nat
    }
}

/// 256 to the n-th power: the number of byte strings of length n.
pub open spec fn pow256(n: nat) -> nat
    decreases n,
{
    if n == 0 {
        1
    } else {
        256 * pow256((n - 1) as nat)
    }
}

/// A big-endian value is bounded by 256 to the length.
pub proof fn lemma_be_val_bound(s: Seq<u8>)
    ensures
        be_val(s) < pow256(s.len()),
    decreases s.len(),
{
    if s.len() > 0 {
        lemma_be_val_bound(s.drop_last());
    }
}

pub proof fn lemma_pow256_mono(a: nat, b: nat)
    requires
        a <= b,
    ensures
        pow256(a) <= pow256(b),
    decreases b,
{
    if a < b {
        lemma_pow256_mono(a, (b - 1) as nat);
        assert(pow256(b) == 256 * pow256((b - 1) as nat));
        assert(256 * pow256((b - 1) as nat) >= pow256((b - 1) as nat)) by (nonlinear_arith);
    }
}

pub proof fn lemma_pow256_16()
    ensures
        pow256(2) == 0x1_0000,
        pow256(4) == 0x1_0000_0000,
        pow256(8) == 0x1_0000_0000_0000_0000,
        pow256(16) == 0x1_0000_0000_0000_0000_0000_0000_0000_0000,
{
    assert(pow256(0) == 1);
    assert(pow256(1) == 256);
    assert(pow256(2) == 0x1_0000);
    assert(pow256(3) == 0x100_0000);
    assert(pow256(4) == 0x1_0000_0000);
    assert(pow256(5) == 0x100_0000_0000);
    assert(pow256(6) == 0x1_0000_0000_0000);
    assert(pow256(7) == 0x100_0000_0000_0000);
    assert(pow256(8) == 0x1_0000_0000_0000_0000);
    assert(pow256(9) == 0x100_0000_0000_0000_0000);
    assert(pow256(10) == 0x1_0000_0000_0000_0000_0000);
    assert(pow256(11) == 0x100_0000_0000_0000_0000_0000);
    assert(pow256(12) == 0x1_0000_0000_0000_0000_0000_0000);
    assert(pow256(13) == 0x100_0000_0000_0000_0000_0000_0000);
    assert(pow256(14) == 0x1_0000_0000_0000_0000_0000_0000_0000);
    assert(pow256(15) == 0x100_0000_0000_0000_0000_0000_0000_0000);
    assert(pow256(16) == 0x1_0000_0000_0000_0000_0000_0000_0000_0000);
}

pub proof fn lemma_be_val_push(s: Seq<u8>, b: u8)
    ensures
        be_val(s.push(b)) == 256 * be_val(s) + b,
{
    assert(s.push(b).drop_last() =~= s);
    assert(s.push(b).last() == b);
}

pub proof fn lemma_be_val_append(a: Seq<u8>, b: Seq<u8>)
    ensures
        be_val(a + b) == be_val(a) * pow256(b.len()) + be_val(b),
    decreases b.len(),
{
    if b.len() == 0 {
        assert(a + b =~= a);
        assert(be_val(a) * 1 == be_val(a)) by (nonlinear_arith);
    } else {
        let bd = b.drop_last();
        assert((a + b).drop_last() =~= a + bd);
        assert((a + b).last() == b.last());
        lemma_be_val_append(a, bd);
        assert(256 * (be_val(a) * pow256(bd.len()) + be_val(bd)) == be_val(a) * (256 * pow256(
            bd.len(),
        )) + 256 * be_val(bd)) by (nonlinear_arith);
        assert(pow256(b.len()) == 256 * pow256(bd.len()));
    }
}

/// The big-endian value of two bytes, written out.
pub proof fn lemma_be_val2(s: Seq<u8>)
    requires
        s.len() == 2,
    ensures
        be_val(s) == 256 * s[0] + s[1],
{
    assert(s.drop_last().drop_last() =~= Seq::<u8>::empty());
    assert(be_val(s.drop_last().drop_last()) == 0);
    assert(s.drop_last().last() == s[0]);
    assert(be_val(s.drop_last()) == s[0]);
    assert(s.last() == s[1]);
}

/// The numeric value of a string of decimal digit bytes.
pub open spec fn dec_val(s: Seq<u8>) -> nat
    recommends
        all_digits(s),
    decreases s.len(),
{
    if s.len() == 0 {
        0
    } else {
        (10 * dec_val(s.drop_last()) + (s.last() - 0x30)) as nat
    }
}

/// Every byte is an ASCII decimal digit.
pub open spec fn all_digits(s: Seq<u8>) -> bool {
    forall|i: int| 0 <= i < s.len() ==> 0x30 <= #[trigger] s[i] <= 0x39
}

/// A decimal number only grows as more of its digits are read.
pub proof fn lemma_dec_val_prefix_le(s: Seq<u8>, j: int)
    requires
        all_digits(s),
        0 <= j <= s.len(),
    ensures
        dec_val(s.take(j)) <= dec_val(s),
    decreases s.len() - j,
{
    if j < s.len() {
        assert(s.take(j + 1).drop_last() =~= s.take(j));
        assert(s.take(j + 1).last() == s[j]);
        assert(dec_val(s.take(j + 1)) == 10 * dec_val(s.take(j)) + (s[j] - 0x30));
        lemma_dec_val_prefix_le(s, j + 1);
    } else {
        assert(s.take(j) =~= s);
    }
}

/// Whether the text holds a slash at all.
pub open spec fn has_slash(s: Seq<u8>) -> bool {
    exists|i: int| 0 <= i < s.len() && s[i] == 0x2F
}

/// An ASCII letter or digit, the alphabet of connection log tags.
pub open spec fn is_id_char(c: char) -> bool {
    ('0' <= c && c <= '9') || ('a' <= c && c <= 'z') || ('A' <= c && c <= 'Z')
}

/// The SOCKS reply code that stands for an OS error number, over both the
/// WinSock numbers and their POSIX equivalents; anything unmapped is the
/// general failure code.
pub open spec fn spec_socks_reply(error: int) -> u8 {
    if error == 0 {
        0x00
    } else if error == 10050 || error == 10051 || error == 101 {
        0x03
    } else if error == 10064 || error == 11001 || error == 10065 || error == 113 {
        0x04
    } else if error == 10061 || error == 111 {
        0x05
    } else if error == 10060 || error == 110 {
        0x06
    } else {
        0x01
    }
}

/// The four big-endian bytes of a 32-bit value.
pub fn u32_to_octets(v: u32) -> (r: Vec<u8>)
    ensures
        r@.len() == 4,
        be_val(r@) == v,
{
    let b0 = (v >> 24) as u8;
    let b1 = (v >> 16) as u8;
    let b2 = (v >> 8) as u8;
    let b3 = v as u8;
    let mut r: Vec<u8> = Vec::new();
    r.push(b0);
    r.push(b1);
    r.push(b2);
    r.push(b3);
    proof {
        assert(b0 * 0x100_0000 + b1 * 0x1_0000 + b2 * 0x100 + b3 == v) by (bit_vector)
            requires
                b0 == (v >> 24) as u8,
                b1 == (v >> 16) as u8,
                b2 == (v >> 8) as u8,
                b3 == v as u8,
        ;
        assert(Seq::<u8>::empty().push(b0) =~= seq![b0]);
        assert(seq![b0].push(b1) =~= seq![b0, b1]);
        assert(seq![b0, b1].push(b2) =~= seq![b0, b1, b2]);
        assert(seq![b0, b1, b2].push(b3) =~= seq![b0, b1, b2, b3]);
        lemma_be_val_push(Seq::<u8>::empty(), b0);
        lemma_be_val_push(seq![b0], b1);
        lemma_be_val_push(seq![b0, b1], b2);
        lemma_be_val_push(seq![b0, b1, b2], b3);
        assert(r@ =~= seq![b0, b1, b2, b3]);
    }
    r
}

/// The eight big-endian bytes of a 64-bit value.
pub fn u64_to_octets(v: u64) -> (r: Vec<u8>)
    ensures
        r@.len() == 8,
        be_val(r@) == v,
{
    let hi = (v >> 32) as u32;
    let lo = v as u32;
    let mut r = u32_to_octets(hi);
    let mut lo_bytes = u32_to_octets(lo);
    let ghost hi_view = r@;
    let ghost lo_view = lo_bytes@;
    r.append(&mut lo_bytes);
    proof {
        lemma_be_val_append(hi_view, lo_view);
        lemma_pow256_16();
        assert(hi * 0x1_0000_0000 + lo == v) by (bit_vector)
            requires
                hi == (v >> 32) as u32,
                lo == v as u32,
        ;
    }
    r
}

/// The sixteen big-endian bytes of a 128-bit value.
pub fn u128_to_octets(v: u128) -> (r: Vec<u8>)
    ensures
        r@.len() == 16,
        be_val(r@) == v,
{
    let hi = (v >> 64) as u64;
    let lo = v as u64;
    let mut r = u64_to_octets(hi);
    let mut lo_bytes = u64_to_octets(lo);
    let ghost hi_view = r@;
    let ghost lo_view = lo_bytes@;
    r.append(&mut lo_bytes);
    proof {
        lemma_be_val_append(hi_view, lo_view);
        lemma_pow256_16();
        assert(hi * 0x1_0000_0000_0000_0000 + lo == v) by (bit_vector)
            requires
                hi == (v >> 64) as u64,
                lo == v as u64,
        ;
    }
    r
}

/// Every mapped OS error lands on one of the defined SOCKS reply codes.
pub proof fn lemma_socks_reply_valid(error: int)
    ensures
        spec_socks_reply(error) == 0 || spec_socks_reply(error) == 1 || spec_socks_reply(error)
            == 3 || spec_socks_reply(error) == 4 || spec_socks_reply(error) == 5
            || spec_socks_reply(error) == 6,
{
}

pub struct Helpers;

impl Helpers {
    pub fn bytes_to_port(data: &[u8]) -> (r: Res<u16>)
        ensures
            r is Ok <==> data@.len() == 2,
            r is Ok ==> r->Ok_0 == be_val(data@),
    {
        if data.len() != 2 {
            return "There must be exactly two (2) bytes for a conversion to a port.".into_error();
        }

        let hi = data[0];
        let lo = data[1];
        assert(((hi as u16) << 8) == hi * 256) by (bit_vector);
        proof {
            lemma_be_val2(data@);
        }
        Ok(((hi as u16) << 8) + (lo as u16))
    }

    pub fn slice_to_u32(data: &[u8]) -> (r: Res<u32>)
        ensures
            r is Ok <==> data@.len() == 4,
            r is Ok ==> r->Ok_0 == be_val(data@),
    {
        if data.len() != 4 {
            return "There must be exactly four (4) bytes for a conversion to an IPv4.".into_error();
        }

        proof {
            lemma_pow256_16();
        }
        let mut acc: u32 = 0;
        let mut i: usize = 0;
        while i < 4
            invariant
                data@.len() == 4,
                i <= 4,
                acc == be_val(data@.take(i as int)),
            decreases 4 - i,
        {
            proof {
                lemma_be_val_bound(data@.take(i as int));
                lemma_pow256_mono(i as nat, 3);
                lemma_pow256_16();
                assert(pow256(3) == 0x100_0000);
                assert(data@.take(i + 1).drop_last() =~= data@.take(i as int));
                assert(data@.take(i + 1).last() == data@[i as int]);
            }
            acc = acc * 256 + (data[i] as u32);
            i = i + 1;
        }
        proof {
            assert(data@.take(4) =~= data@);
        }
        Ok(acc)
    }

    pub fn slice_to_u128(data: &[u8]) -> (r: Res<u128>)
        ensures
            r is Ok <==> data@.len() == 16,
            r is Ok ==> r->Ok_0 == be_val(data@),
    {
        if data.len() != 16 {
            return "There must be exactly sixteen (16) bytes for a conversion to an IPv6.".into_error();
        }

        let mut acc: u128 = 0;
        let mut i: usize = 0;
        while i < 16
            invariant
                data@.len() == 16,
                i <= 16,
                acc == be_val(data@.take(i as int)),
            decreases 16 - i,
        {
            proof {
                lemma_be_val_bound(data@.take(i as int));
                lemma_pow256_mono(i as nat, 15);
                lemma_pow256_16();
                assert(pow256(16) == 256 * pow256(15));
                assert(acc * 256 + 256 <= pow256(15) * 256) by (nonlinear_arith)
                    requires
                        acc + 1 <= pow256(15),
                ;
                assert(data@.take(i + 1).drop_last() =~= data@.take(i as int));
                assert(data@.take(i + 1).last() == data@[i as int]);
            }
            acc = acc * 256 + (data[i] as u128);
            i = i + 1;
        }
        proof {
            assert(data@.take(16) =~= data@);
        }
        Ok(acc)
    }

    /// The SOCKS reply code for an OS error number; errors outside the
    /// mapping fall back to the general failure code.
    pub fn get_socks_reply(error: i32) -> (r: u8)
        ensures
            r == spec_socks_reply(error as int),
    {
        match error {
            0 => 0x00,                                          // succeeded
            10050 | 10051 | 101 => 0x03,                        // network unreachable
            10064 | 11001 | 10065 | 113 => 0x04,                // host unreachable
            10061 | 111 => 0x05,                                // connection refused
            10060 | 110 => 0x06,                                // TTL expired
            _ => 0x01,                                          // general SOCKS server failure
        }
    }

    /// Copies `octets` over the front of `buffer`, leaving the rest as it was.
    pub fn write_octets(buffer: &mut [u8], octets: &[u8])
        requires
            octets@.len() <= old(buffer)@.len(),
        ensures
            final(buffer)@.len() == old(buffer)@.len(),
            final(buffer)@ == octets@ + old(buffer)@.subrange(
                octets@.len() as int,
                old(buffer)@.len() as int,
            ),
    {
        let mut i: usize = 0;
        while i < octets.len()
            invariant
                octets@.len() <= buffer@.len(),
                buffer@.len() == old(buffer)@.len(),
                i <= octets@.len(),
                forall|j: int| 0 <= j < i ==> buffer@[j] == octets@[j],
                forall|j: int| i <= j < buffer@.len() ==> buffer@[j] == old(buffer)@[j],
            decreases octets@.len() - i,
        {
            buffer[i] = octets[i];
            i = i + 1;
        }
        proof {
            assert(buffer@ =~= octets@ + old(buffer)@.subrange(
                octets@.len() as int,
                old(buffer)@.len() as int,
            ));
        }
    }

    /// Four random characters drawn from the ASCII letters and digits, used
    /// as a log tag for one connection.
    ///
    /// Relies on rand's `Alphanumeric` distribution, whose samples are
    /// bytes of `A-Z`, `a-z` and `0-9` only.
    #[verifier::external_body]
    pub fn get_id() -> (r: String)
        ensures
            r@.len() == 4,
            forall|i: int| 0 <= i < r@.len() ==> is_id_char(r@[i]),
    {
        rand::thread_rng()
            .sample_iter(&rand::distributions::Alphanumeric)
            .take(4)
            .map(char::from)
            .collect::<String>()
    }

    pub fn mask_ipv4(octets: &[u8], mask: u32) -> (r: Res<u32>)
        ensures
            r is Ok <==> octets@.len() == 4,
            r is Ok ==> r->Ok_0 == ((be_val(octets@) as u32) & mask),
    {
        match Helpers::slice_to_u32(octets) {
            Ok(v) => Ok(v & mask),
            Err(e) => Err(e),
        }
    }

    pub fn mask_ipv6(octets: &[u8], mask: u128) -> (r: Res<u128>)
        ensures
            r is Ok <==> octets@.len() == 16,
            r is Ok ==> r->Ok_0 == ((be_val(octets@) as u128) & mask),
    {
        match Helpers::slice_to_u128(octets) {
            Ok(v) => Ok(v & mask),
            Err(e) => Err(e),
        }
    }

    /// Membership check; checking an address against a CIDR of the other
    /// family is a configuration error.
    pub fn is_ip_in_cidr(ip_addr: &Ip, cidr: &Cidr) -> (r: Res<bool>)
        ensures
            r is Ok <==> same_family(*ip_addr, *cidr),
            r is Ok ==> r->Ok_0 == spec_in_cidr(*ip_addr, *cidr),
    {
        match cidr {
            Cidr::V4(prefix, mask) => {
                match ip_addr {
                    Ip::V4(ip) => Ok((*ip & *mask) == *prefix),
                    _ => Err(GenericError::from_text(
                        "Cannot check IPv6 addresses against IPv4 CIDRs.",
                    )),
                }
            },
            Cidr::V6(prefix, mask) => {
                match ip_addr {
                    Ip::V6(ip) => Ok((*ip & *mask) == *prefix),
                    _ => Err(GenericError::from_text(
                        "Cannot check IPv4 addresses against IPv6 CIDRs.",
                    )),
                }
            },
        }
    }

    /// Splits a CIDR string's bytes at its first slash into the address
    /// text and the prefix-length text; text past a second slash is
    /// ignored. Without a slash there is no CIDR.
    pub fn split_cidr_text(s: &[u8]) -> (r: Res<(Vec<u8>, Vec<u8>)>)
        ensures
            r is Ok <==> has_slash(s@),
            r is Ok ==> ({
                let ip = r->Ok_0.0@;
                let bits = r->Ok_0.1@;
                &&& ip.len() < s@.len()
                &&& s@[ip.len() as int] == 0x2F
                &&& ip == s@.subrange(0, ip.len() as int)
                &&& (forall|j: int| 0 <= j < ip.len() ==> s@[j] != 0x2F)
                &&& bits == s@.subrange(ip.len() + 1 as int, ip.len() + 1 + bits.len() as int)
                &&& (forall|j: int| ip.len() + 1 <= j < ip.len() + 1 + bits.len() ==> s@[j] != 0x2F)
                &&& (ip.len() + 1 + bits.len() == s@.len() || s@[ip.len() + 1 + bits.len() as int]
                    == 0x2F)
            }),
    {
        let n = s.len();
        let slash = match Helpers::find_slash_from(s, 0) {
            Some(i) => i,
            None => {
                return "A CIDR must be of the form IP/PREFIX_LEN.".into_error();
            },
        };
        let ip = slice_to_vec(slice_subrange(s, 0, slash));
        let end = match Helpers::find_slash_from(s, slash + 1) {
            Some(j) => j,
            None => n,
        };
        let bits = slice_to_vec(slice_subrange(s, slash + 1, end));
        Ok((ip, bits))
    }

    fn find_slash_from(s: &[u8], from: usize) -> (r: Option<usize>)
        requires
            from <= s@.len(),
        ensures
            r matches Some(i) ==> from <= i < s@.len() && s@[i as int] == 0x2F && (forall|j: int|
                from <= j < i ==> s@[j] != 0x2F),
            r is None ==> forall|j: int| from <= j < s@.len() ==> s@[j] != 0x2F,
    {
        let mut i = from;
        while i < s.len()
            invariant
                from <= i <= s@.len(),
                forall|j: int| from <= j < i ==> s@[j] != 0x2F,
            decreases s@.len() - i,
        {
            if s[i] == 0x2F {
                return Some(i);
            }
            i = i + 1;
        }
        None
    }

    /// Reads the prefix length as a decimal number; anything empty,
    /// non-numeric or too large for 32 bits is refused.
    pub fn parse_prefix_length(data: &[u8]) -> (r: Res<u32>)
        ensures
            r is Ok <==> data@.len() >= 1 && all_digits(data@) && dec_val(data@) <= u32::MAX,
            r is Ok ==> r->Ok_0 == dec_val(data@),
    {
        if data.len() == 0 {
            return "The CIDR prefix length must be a decimal number.".into_error();
        }

        let n = data.len();
        let mut acc: u64 = 0;
        let mut i: usize = 0;
        while i < n
            invariant
                n == data@.len(),
                i <= n,
                all_digits(data@.take(i as int)),
                acc == dec_val(data@.take(i as int)),
                acc <= u32::MAX,
            decreases n - i,
        {
            let b = data[i];
            if b < 0x30 || b > 0x39 {
                return "The CIDR prefix length must be a decimal number.".into_error();
            }
            proof {
                assert(data@.take(i + 1).drop_last() =~= data@.take(i as int));
                assert(data@.take(i + 1).last() == data@[i as int]);
            }
            acc = acc * 10 + ((b - 0x30) as u64);
            i = i + 1;
            if acc > 0xFFFF_FFFF {
                proof {
                    if all_digits(data@) {
                        lemma_dec_val_prefix_le(data@, i as int);
                    }
                }
                return "The CIDR prefix length is too large.".into_error();
            }
        }
        proof {
            assert(data@.take(n as int) =~= data@);
        }
        Ok(acc as u32)
    }

    /// Builds the admission CIDR from an address and a prefix length: the
    /// mask keeps the top `num_mask_bits` bits and the prefix is stored
    /// pre-masked.
    pub fn make_cidr(ip_addr: &Ip, num_mask_bits: u32) -> (r: Res<Cidr>)
        ensures
            r is Ok <==> (ip_addr is V4 && num_mask_bits <= 32) || (ip_addr is V6
                && num_mask_bits <= 128),
            ip_addr is V4 && r is Ok ==> r->Ok_0 == Cidr::V4(
                ip_addr->V4_0 & spec_mask_v4(num_mask_bits),
                spec_mask_v4(num_mask_bits),
            ),
            ip_addr is V6 && r is Ok ==> r->Ok_0 == Cidr::V6(
                ip_addr->V6_0 & spec_mask_v6(num_mask_bits),
                spec_mask_v6(num_mask_bits),
            ),
            r is Ok ==> r->Ok_0.wf(),
    {
        match ip_addr {
            Ip::V4(ip) => {
                if num_mask_bits > 32 {
                    return Err(GenericError::from_text(
                        "An IPv4 CIDR prefix must have a mask bit length less than or equal to 32.",
                    ));
                }

                let mask: u32 = if num_mask_bits == 0 {
                    0
                } else {
                    let shift: u32 = 32 - num_mask_bits;
                    assert(1u32 << shift >= 1) by (bit_vector)
                        requires
                            shift < 32,
                    ;
                    !((1u32 << shift) - 1)
                };
                let prefix = *ip & mask;
                proof {
                    let a: u32 = ip_addr->V4_0;
                    let p: u32 = a & mask;
                    assert((p & mask) == p) by (bit_vector)
                        requires
                            p == a & mask,
                    ;
                }
                Ok(Cidr::V4(prefix, mask))
            },
            Ip::V6(ip) => {
                if num_mask_bits > 128 {
                    return Err(GenericError::from_text(
                        "An IPv6 CIDR prefix must have a mask bit length less than or equal to 128.",
                    ));
                }

                let mask: u128 = if num_mask_bits == 0 {
                    0
                } else {
                    let shift: u128 = (128 - num_mask_bits) as u128;
                    assert(1u128 << shift >= 1) by (bit_vector)
                        requires
                            shift < 128,
                    ;
                    !((1u128 << shift) - 1)
                };
                let prefix = *ip & mask;
                proof {
                    let a: u128 = ip_addr->V6_0;
                    let p: u128 = a & mask;
                    assert((p & mask) == p) by (bit_vector)
                        requires
                            p == a & mask,
                    ;
                }
                Ok(Cidr::V6(prefix, mask))
            },
        }
    }

    pub fn port_to_bytes(port: u16) -> (r: (u8, u8))
        ensures
            r.0 == port / 256,
            r.1 == port % 256,
    {
        assert((port >> 8) as u8 == port / 256) by (bit_vector);
        assert((port & 0xff) as u8 == port % 256) by (bit_vector);
        ((port >> 8) as u8, (port & 0xff) as u8)
    }
}

/// Encoding a port as two big-endian bytes and reading them back
/// yields the port again.
pub proof fn lemma_port_round_trip(port: u16)
    ensures
        be_val(seq![(port / 256) as u8, (port % 256) as u8]) == port,
{
    let s = seq![(port / 256) as u8, (port % 256) as u8];
    lemma_be_val2(s);
    assert(256 * (port / 256) + port % 256 == port) by (nonlinear_arith);
}

} // verus!
