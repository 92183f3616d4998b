use vstd::prelude::*;
use vstd::utf8::{decode_utf8, valid_utf8};
use arrayvec::ArrayVec;
use bytes::{Bytes, BytesMut};
use crate::be::{be_int, be_nat};

verus! {

/// `bytes::Bytes`, a shared, immutable byte buffer.
#[verifier::external_type_specification]
#[verifier::external_body]
pub struct ExBytes(Bytes);

/// `bytes::BytesMut`, a unique, growable byte buffer.
#[verifier::external_type_specification]
#[verifier::external_body]
pub struct ExBytesMut(BytesMut);

/// `core::marker::PhantomPinned`, a marker that holds no data.
#[verifier::external_type_specification]
#[verifier::external_body]
pub struct ExPhantomPinned(core::marker::PhantomPinned);

/// `arrayvec::ArrayVec`, a vector of at most `CAP` items stored inline.
#[verifier::external_type_specification]
#[verifier::external_body]
#[verifier::reject_recursive_types(T)]
pub struct ExArrayVec<T, const CAP: usize>(ArrayVec<T, CAP>);

/// An `ArrayVec<u8, N>` together with the bytes it holds. Only
/// [`byte_array_vec_from`] builds one, so `contents` is what `inner` holds.
pub struct ByteArrayVec<const N: usize> {
    inner: ArrayVec<u8, N>,
    contents: Ghost<Seq<u8>>,
}

impl<const N: usize> ByteArrayVec<N> {
    /// The bytes that the vector holds.
    pub closed spec fn contents(&self) -> Seq<u8> {
        self.contents@
    }

    /// The vector that holds the bytes.
    pub closed spec fn inner(&self) -> ArrayVec<u8, N> {
        self.inner
    }

    /// The vector itself.
    pub fn into_inner(self) -> (r: ArrayVec<u8, N>)
        ensures
            r == self.inner(),
    {
        self.inner
    }
}

/// The bytes that a `Bytes` buffer holds.
pub uninterp spec fn bytes_contents(b: Bytes) -> Seq<u8>;

/// The bytes that a `BytesMut` buffer holds.
pub uninterp spec fn bytes_mut_contents(b: BytesMut) -> Seq<u8>;

/// Makes the `core::marker::PhantomPinned` marker; nothing is stated of it,
/// since it holds no data.
#[verifier::external_body]
pub(crate) fn phantom_pinned() -> core::marker::PhantomPinned {
    core::marker::PhantomPinned
}

/// Calls `<Bytes as From<Vec<u8>>>::from`, which takes over the vector's
/// allocation; the buffer holds exactly the vector's bytes.
#[verifier::external_body]
pub(crate) fn bytes_from_vec(v: Vec<u8>) -> (b: Bytes)
    ensures
        bytes_contents(b) == v@,
{
    Bytes::from(v)
}

/// Calls `<ArrayVec<u8, N> as From<[u8; N]>>::from`, which copies the array
/// and sets the length to `N`; the vector holds exactly the array's bytes. The
/// call panics for a capacity above `u32::MAX`, which `requires` leaves out.
#[verifier::external_body]
pub(crate) fn byte_array_vec_from<const N: usize>(a: [u8; N]) -> (r: ByteArrayVec<N>)
    requires
        N <= u32::MAX,
    ensures
        r.contents() == a@,
{
    ByteArrayVec { inner: ArrayVec::from(a), contents: Ghost(a@) }
}

/// Calls `<BytesMut as From<&[u8]>>::from`, which copies the slice; the buffer
/// holds exactly the slice's bytes.
#[verifier::external_body]
pub(crate) fn bytes_mut_from_slice(s: &[u8]) -> (b: BytesMut)
    ensures
        bytes_mut_contents(b) == s@,
{
    BytesMut::from(s)
}

/// Calls `core::str::from_utf8`: it succeeds exactly on valid UTF-8 (as vstd
/// defines it), and the string then holds the decoded characters.
#[verifier::external_body]
pub(crate) fn str_from_utf8(v: &[u8]) -> (r: Option<&str>)
    ensures
        r is Some <==> valid_utf8(v@),
        r matches Some(s) ==> s@ == decode_utf8(v@),
{
    core::str::from_utf8(v).ok()
}

/// Calls `<[u8; N] as TryFrom<&[u8]>>::try_from`: it succeeds exactly when the
/// slice has `N` bytes, and the array then holds them.
#[verifier::external_body]
pub(crate) fn array_try_from_slice<const N: usize>(s: &[u8]) -> (r: Option<[u8; N]>)
    ensures
        r is Some <==> s@.len() == N,
        r matches Some(a) ==> a@ == s@,
{
    <[u8; N]>::try_from(s).ok()
}

/// Calls `u8::from_be_bytes`: the unsigned big-endian value of the bytes.
#[verifier::external_body]
pub(crate) fn u8_from_be(b: [u8; 1]) -> (r: u8)
    ensures
        r as int == be_nat(b@),
{
    u8::from_be_bytes(b)
}

/// Calls `u16::from_be_bytes`: the unsigned big-endian value of the bytes.
#[verifier::external_body]
pub(crate) fn u16_from_be(b: [u8; 2]) -> (r: u16)
    ensures
        r as int == be_nat(b@),
{
    u16::from_be_bytes(b)
}

/// Calls `u32::from_be_bytes`: the unsigned big-endian value of the bytes.
#[verifier::external_body]
pub(crate) fn u32_from_be(b: [u8; 4]) -> (r: u32)
    ensures
        r as int == be_nat(b@),
{
    u32::from_be_bytes(b)
}

/// Calls `u64::from_be_bytes`: the unsigned big-endian value of the bytes.
#[verifier::external_body]
pub(crate) fn u64_from_be(b: [u8; 8]) -> (r: u64)
    ensures
        r as int == be_nat(b@),
{
    u64::from_be_bytes(b)
}

/// Calls `u128::from_be_bytes`: the unsigned big-endian value of the bytes.
#[verifier::external_body]
pub(crate) fn u128_from_be(b: [u8; 16]) -> (r: u128)
    ensures
        r as int == be_nat(b@),
{
    u128::from_be_bytes(b)
}

/// Calls `i8::from_be_bytes`: the two's-complement big-endian value of the bytes.
#[verifier::external_body]
pub(crate) fn i8_from_be(b: [u8; 1]) -> (r: i8)
    ensures
        r as int == be_int(b@),
{
    i8::from_be_bytes(b)
}

/// Calls `i16::from_be_bytes`: the two's-complement big-endian value of the bytes.
#[verifier::external_body]
pub(crate) fn i16_from_be(b: [u8; 2]) -> (r: i16)
    ensures
        r as int == be_int(b@),
{
    i16::from_be_bytes(b)
}

/// Calls `i32::from_be_bytes`: the two's-complement big-endian value of the bytes.
#[verifier::external_body]
pub(crate) fn i32_from_be(b: [u8; 4]) -> (r: i32)
    ensures
        r as int == be_int(b@),
{
    i32::from_be_bytes(b)
}

/// Calls `i64::from_be_bytes`: the two's-complement big-endian value of the bytes.
#[verifier::external_body]
pub(crate) fn i64_from_be(b: [u8; 8]) -> (r: i64)
    ensures
        r as int == be_int(b@),
{
    i64::from_be_bytes(b)
}

/// Calls `i128::from_be_bytes`: the two's-complement big-endian value of the bytes.
#[verifier::external_body]
pub(crate) fn i128_from_be(b: [u8; 16]) -> (r: i128)
    ensures
        r as int == be_int(b@),
{
    i128::from_be_bytes(b)
}

} // verus!
