use vstd::prelude::*;
use vstd::utf8::{decode_utf8, valid_utf8};
use crate::be::{be_nat, lemma_be_nat_zeros_prefix, zeros};
use crate::error::{Error, Result};
use crate::foreign::{array_try_from_slice, str_from_utf8, u64_from_be};

verus! {

broadcast use vstd::array::group_array_axioms;

/// The header of an RLP item: whether it is a list, and how long its payload is.
#[derive(Clone, Copy, Debug, PartialEq, Eq)]
pub struct Header {
    /// `true` for a list, `false` for a byte string.
    pub list: bool,
    /// The number of payload bytes that follow the header.
    pub payload_length: usize,
}

/// What `static_left_pad` gives for `data` and a width of `n` bytes: the data
/// right-aligned in `n` zero bytes, refused when it is too long or (being
/// non-empty) starts with a zero byte.
pub open spec fn spec_left_pad(data: Seq<u8>, n: nat) -> Result<Seq<u8>> {
    if data.len() > n {
        Err(Error::Overflow)
    } else if data.len() == 0 {
        Ok(zeros(n))
    } else if data[0] == 0 {
        Err(Error::LeadingZero)
    } else {
        Ok(zeros((n - data.len()) as nat) + data)
    }
}

/// Padding does not change the unsigned value of the data.
pub proof fn lemma_left_pad_value(data: Seq<u8>, n: nat)
    ensures
        spec_left_pad(data, n) matches Ok(a) ==> be_nat(a) == be_nat(data) && a.len() == n,
{
    if data.len() <= n {
        lemma_be_nat_zeros_prefix((n - data.len()) as nat, data);
        if data.len() == 0 {
            assert(zeros(n) + data =~= zeros(n));
        }
    }
}

/// Reading a header from `s`: the header or the error, and how many bytes were
/// consumed on the way (the header itself on success; up to the point of the
/// failure otherwise). A single byte below `0x80` is its own header: nothing
/// is consumed and the payload is that byte.
pub open spec fn spec_header(s: Seq<u8>) -> (Result<Header>, nat) {
    if s.len() == 0 {
        (Err(Error::InputTooShort), 0)
    } else if s[0] < 0x80 {
        (Ok(Header { list: false, payload_length: 1 }), 0)
    } else if s[0] <= 0xB7 {
        let len = (s[0] - 0x80) as nat;
        if len == 1 && s.len() < 2 {
            (Err(Error::InputTooShort), 1)
        } else if len == 1 && s[1] < 0x80 {
            (Err(Error::NonCanonicalSingleByte), 1)
        } else if s.len() - 1 < len {
            (Err(Error::InputTooShort), 1)
        } else {
            (Ok(Header { list: false, payload_length: len as usize }), 1)
        }
    } else if 0xC0 <= s[0] <= 0xF7 {
        let len = (s[0] - 0xC0) as nat;
        if s.len() - 1 < len {
            (Err(Error::InputTooShort), 1)
        } else {
            (Ok(Header { list: true, payload_length: len as usize }), 1)
        }
    } else {
        let list = s[0] >= 0xF8;
        let len_of_len: nat = if list {
            (s[0] - 0xF7) as nat
        } else {
            (s[0] - 0xB7) as nat
        };
        if s.len() - 1 < len_of_len {
            (Err(Error::InputTooShort), 1)
        } else if s[1] == 0 {
            (Err(Error::LeadingZero), 1 + len_of_len)
        } else {
            let len = be_nat(s.subrange(1, 1 + len_of_len as int));
            if len > usize::MAX {
                (Err(Error::Custom("Input too big")), 1 + len_of_len)
            } else if len < 56 {
                (Err(Error::NonCanonicalSize), 1 + len_of_len)
            } else if s.len() - (1 + len_of_len) < len {
                (Err(Error::InputTooShort), 1 + len_of_len)
            } else {
                (Ok(Header { list, payload_length: len as usize }), 1 + len_of_len)
            }
        }
    }
}

/// Reading the payload of an item of the given kind (list or string) from `s`:
/// the payload or the error, and how many bytes were consumed.
pub open spec fn spec_decode_bytes(s: Seq<u8>, is_list: bool) -> (Result<Seq<u8>>, nat) {
    let (h, n) = spec_header(s);
    match h {
        Err(e) => (Err(e), n),
        Ok(h) => if h.list != is_list {
            (
                Err(
                    if is_list {
                        Error::UnexpectedString
                    } else {
                        Error::UnexpectedList
                    },
                ),
                n,
            )
        } else {
            (Ok(s.subrange(n as int, n + h.payload_length)), (n + h.payload_length) as nat)
        },
    }
}

/// Reading a string item as UTF-8 text from `s`.
pub open spec fn spec_decode_str(s: Seq<u8>) -> (Result<Seq<char>>, nat) {
    let (r, n) = spec_decode_bytes(s, false);
    match r {
        Err(e) => (Err(e), n),
        Ok(p) => if valid_utf8(p) {
            (Ok(decode_utf8(p)), n)
        } else {
            (Err(Error::Custom("invalid string")), n)
        },
    }
}

/// Splits off the first `n` bytes of `buf`, leaving the rest in `buf`.
fn advance<'a>(buf: &mut &'a [u8], n: usize) -> (head: &'a [u8])
    requires
        n <= old(buf)@.len(),
    ensures
        head@ == old(buf)@.take(n as int),
        final(buf)@ == old(buf)@.skip(n as int),
{
    let whole: &'a [u8] = *buf;
    let (head, tail) = whole.split_at(n);
    *buf = tail;
    head
}

/// The first byte of `buf`, without consuming it.
fn get_next_byte(buf: &[u8]) -> (r: Result<u8>)
    ensures
        buf@.len() == 0 ==> r == Err::<u8, Error>(Error::InputTooShort),
        buf@.len() > 0 ==> r == Ok::<u8, Error>(buf@[0]),
{
    if buf.is_empty() {
        return Err(Error::InputTooShort);
    }
    Ok(buf[0])
}

/// Right-aligns `data` in an array of `N` zero bytes.
///
/// # Errors
///
/// `Overflow` when `data` is longer than `N`; `LeadingZero` when it is
/// non-empty and starts with a zero byte.
pub fn static_left_pad<const N: usize>(data: &[u8]) -> (r: Result<[u8; N]>)
    ensures
        match spec_left_pad(data@, N as nat) {
            Ok(p) => r matches Ok(a) && a@ == p,
            Err(e) => r == Err::<[u8; N], Error>(e),
        },
{
    if data.len() > N {
        return Err(Error::Overflow);
    }
    let mut v: [u8; N] = vstd::array::array_fill_for_copy_types::<u8, N>(0u8);
    if data.len() == 0 {
        assert(v@ =~= zeros(N as nat));
        return Ok(v);
    }
    if data[0] == 0 {
        return Err(Error::LeadingZero);
    }
    let off: usize = N - data.len();
    let mut i: usize = 0;
    while i < data.len()
        invariant
            off + data@.len() == N,
            i <= data@.len(),
            v@.len() == N,
            forall|j: int| 0 <= j < off ==> v@[j] == 0,
            forall|j: int| 0 <= j < i ==> v@[off + j] == data@[j],
        decreases data@.len() - i,
    {
        v[off + i] = data[i];
        i += 1;
    }
    assert(v@ =~= zeros(off as nat) + data@);
    Ok(v)
}

/// Copies a slice of exactly `N` bytes into an array.
///
/// # Errors
///
/// `UnexpectedLength` when the slice does not hold exactly `N` bytes.
pub fn slice_to_array<const N: usize>(slice: &[u8]) -> (r: Result<[u8; N]>)
    ensures
        slice@.len() == N ==> (r matches Ok(a) && a@ == slice@),
        slice@.len() != N ==> r == Err::<[u8; N], Error>(Error::UnexpectedLength),
{
    match array_try_from_slice::<N>(slice) {
        Some(a) => Ok(a),
        None => Err(Error::UnexpectedLength),
    }
}

impl Header {
    /// Reads a header from `buf`, advancing it past the header.
    ///
    /// # Errors
    ///
    /// When the header is malformed or not canonical, or announces more
    /// payload than `buf` holds.
    pub fn decode(buf: &mut &[u8]) -> (r: Result<Header>)
        ensures
            ({
                let (m, n) = spec_header(old(buf)@);
                &&& n <= old(buf)@.len()
                &&& final(buf)@ == old(buf)@.skip(n as int)
                &&& r == m
            }),
    {
        let ghost s = buf@;
        let b: u8 = get_next_byte(buf)?;
        let payload_length: usize;
        let mut list = false;
        if b < 0x80 {
            payload_length = 1;
        } else if b <= 0xB7 {
            advance(buf, 1);
            payload_length = (b - 0x80) as usize;
            if payload_length == 1 && get_next_byte(buf)? < 0x80 {
                return Err(Error::NonCanonicalSingleByte);
            }
        } else if 0xC0 <= b && b <= 0xF7 {
            advance(buf, 1);
            list = true;
            payload_length = (b - 0xC0) as usize;
        } else {
            advance(buf, 1);
            list = b >= 0xF8;
            let code: u8 = if list {
                0xF7
            } else {
                0xB7
            };
            let len_of_len: usize = (b - code) as usize;
            if buf.len() < len_of_len {
                return Err(Error::InputTooShort);
            }
            let len_bytes = advance(buf, len_of_len);
            assert(len_bytes@ =~= s.subrange(1, 1 + len_of_len));
            let padded = static_left_pad::<8>(len_bytes)?;
            let len: u64 = u64_from_be(padded);
            proof {
                lemma_be_nat_zeros_prefix((8 - len_of_len) as nat, len_bytes@);
            }
            if len > usize::MAX as u64 {
                return Err(Error::Custom("Input too big"));
            }
            payload_length = len as usize;
            if payload_length < 56 {
                return Err(Error::NonCanonicalSize);
            }
        }
        if buf.len() < payload_length {
            return Err(Error::InputTooShort);
        }
        Ok(Header { list, payload_length })
    }

    /// Reads an item of the given kind from `buf` and returns its payload,
    /// advancing `buf` past the whole item.
    ///
    /// # Errors
    ///
    /// Those of [`Header::decode`]; `UnexpectedString` or `UnexpectedList` when
    /// the item is not of the kind asked for.
    pub fn decode_bytes<'a>(buf: &mut &'a [u8], is_list: bool) -> (r: Result<&'a [u8]>)
        ensures
            ({
                let (m, n) = spec_decode_bytes(old(buf)@, is_list);
                &&& n <= old(buf)@.len()
                &&& final(buf)@ == old(buf)@.skip(n as int)
                &&& match m {
                    Ok(p) => r matches Ok(q) && q@ == p,
                    Err(e) => r == Err::<&[u8], Error>(e),
                }
            }),
    {
        let ghost s = buf@;
        let h = Self::decode(buf)?;
        if h.list != is_list {
            return Err(
                if is_list {
                    Error::UnexpectedString
                } else {
                    Error::UnexpectedList
                },
            );
        }
        let payload = advance(buf, h.payload_length);
        proof {
            let n = spec_header(s).1;
            assert(payload@ =~= s.subrange(n as int, n + h.payload_length));
            assert(buf@ =~= s.skip(n + h.payload_length));
        }
        Ok(payload)
    }

    /// Reads a string item from `buf` as UTF-8 text, advancing `buf` past it.
    ///
    /// # Errors
    ///
    /// Those of [`Header::decode_bytes`]; `Custom("invalid string")` when the
    /// payload is not valid UTF-8.
    pub fn decode_str<'a>(buf: &mut &'a [u8]) -> (r: Result<&'a str>)
        ensures
            ({
                let (m, n) = spec_decode_str(old(buf)@);
                &&& n <= old(buf)@.len()
                &&& final(buf)@ == old(buf)@.skip(n as int)
                &&& match m {
                    Ok(t) => r matches Ok(q) && q@ == t,
                    Err(e) => r == Err::<&str, Error>(e),
                }
            }),
    {
        let bytes = Self::decode_bytes(buf, false)?;
        match str_from_utf8(bytes) {
            Some(text) => Ok(text),
            None => Err(Error::Custom("invalid string")),
        }
    }
}

} // verus!
