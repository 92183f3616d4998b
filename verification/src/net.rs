use vstd::prelude::*;
use crate::decode::RlpDecodable;
use crate::error::{Error, Result};
use crate::header::{slice_to_array, spec_decode_bytes, Header};

verus! {

/// An IPv4 address, held as its four octets in network order.
#[derive(Clone, Copy, Debug, PartialEq, Eq)]
pub struct Ipv4Addr {
    pub octets: [u8; 4],
}

/// An IPv6 address, held as its sixteen octets in network order.
#[derive(Clone, Copy, Debug, PartialEq, Eq)]
pub struct Ipv6Addr {
    pub octets: [u8; 16],
}

/// An IP address of either version.
#[derive(Clone, Copy, Debug, PartialEq, Eq)]
pub enum IpAddr {
    V4(Ipv4Addr),
    V6(Ipv6Addr),
}

impl Ipv4Addr {
    /// The address `a.b.c.d`.
    pub fn new(a: u8, b: u8, c: u8, d: u8) -> (r: Self)
        ensures
            r.octets@ == seq![a, b, c, d],
    {
        let r = Ipv4Addr { octets: [a, b, c, d] };
        assert(r.octets@ =~= seq![a, b, c, d]);
        r
    }
}

/// Decoding an address: a string item whose payload holds exactly one of the
/// allowed numbers of octets.
pub open spec fn spec_decode_octets(s: Seq<u8>, v4: bool, v6: bool) -> (Result<Seq<u8>>, nat) {
    let (r, n) = spec_decode_bytes(s, false);
    (
        match r {
            Err(e) => Err(e),
            Ok(p) => if (v4 && p.len() == 4) || (v6 && p.len() == 16) {
                Ok(p)
            } else {
                Err(Error::UnexpectedLength)
            },
        },
        n,
    )
}

impl RlpDecodable for Ipv4Addr {
    type Model = Seq<u8>;

    open spec fn model(&self) -> Seq<u8> {
        self.octets@
    }

    /// A string item of four bytes.
    open spec fn spec_rlp_decode(input: Seq<u8>) -> (Result<Seq<u8>>, nat) {
        spec_decode_octets(input, true, false)
    }

    fn rlp_decode(buf: &mut &[u8]) -> (r: Result<Self>) {
        let bytes = Header::decode_bytes(buf, false)?;
        let octets = slice_to_array::<4>(bytes)?;
        Ok(Ipv4Addr { octets })
    }
}

impl RlpDecodable for Ipv6Addr {
    type Model = Seq<u8>;

    open spec fn model(&self) -> Seq<u8> {
        self.octets@
    }

    /// A string item of sixteen bytes.
    open spec fn spec_rlp_decode(input: Seq<u8>) -> (Result<Seq<u8>>, nat) {
        spec_decode_octets(input, false, true)
    }

    fn rlp_decode(buf: &mut &[u8]) -> (r: Result<Self>) {
        let bytes = Header::decode_bytes(buf, false)?;
        let octets = slice_to_array::<16>(bytes)?;
        Ok(Ipv6Addr { octets })
    }
}

impl RlpDecodable for IpAddr {
    /// The octets; their number tells the version.
    type Model = Seq<u8>;

    open spec fn model(&self) -> Seq<u8> {
        match self {
            IpAddr::V4(a) => a.octets@,
            IpAddr::V6(a) => a.octets@,
        }
    }

    /// A string item of four bytes (version 4) or sixteen bytes (version 6).
    open spec fn spec_rlp_decode(input: Seq<u8>) -> (Result<Seq<u8>>, nat) {
        spec_decode_octets(input, true, true)
    }

    fn rlp_decode(buf: &mut &[u8]) -> (r: Result<Self>) {
        let bytes = Header::decode_bytes(buf, false)?;
        if bytes.len() == 4 {
            let octets = slice_to_array::<4>(bytes)?;
            Ok(IpAddr::V4(Ipv4Addr { octets }))
        } else if bytes.len() == 16 {
            let octets = slice_to_array::<16>(bytes)?;
            Ok(IpAddr::V6(Ipv6Addr { octets }))
        } else {
            Err(Error::UnexpectedLength)
        }
    }
}

} // verus!
