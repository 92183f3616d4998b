use vstd::prelude::*;
use crate::be::{be_int, be_nat};
use crate::error::{Error, Result};
use crate::foreign::{
    bytes_contents, bytes_from_vec, bytes_mut_contents, bytes_mut_from_slice, i128_from_be,
    i16_from_be, i32_from_be, i64_from_be, i8_from_be, u128_from_be, u16_from_be, u32_from_be,
    u64_from_be, u8_from_be, array_try_from_slice, phantom_pinned, byte_array_vec_from,
    ByteArrayVec,
};
use crate::header::{
    lemma_left_pad_value, spec_decode_bytes, spec_decode_str, spec_left_pad, static_left_pad,
    Header,
};
use arrayvec::ArrayVec;
use bytes::{Bytes, BytesMut};
use std::borrow::{Cow, ToOwned};
use std::marker::{PhantomData, PhantomPinned};
use std::rc::Rc;
use std::sync::Arc;

verus! {

/// A type that can be decoded from RLP data.
///
/// Each type states what it decodes to as a model (`spec_rlp_decode`): the
/// model of the value or the error, and how many bytes are consumed either way.
pub trait RlpDecodable: Sized {
    /// The mathematical value that a decoded value stands for.
    type Model;

    /// The model of a value.
    spec fn model(&self) -> Self::Model;

    /// What decoding `input` gives: the model of the decoded value or the
    /// error, and the number of bytes consumed.
    spec fn spec_rlp_decode(input: Seq<u8>) -> (Result<Self::Model>, nat);

    /// Decodes the blob into the appropriate type. `buf` must be advanced past
    /// the decoded object.
    fn rlp_decode(buf: &mut &[u8]) -> (r: Result<Self>)
        ensures
            ({
                let (m, n) = Self::spec_rlp_decode(old(buf)@);
                &&& n <= old(buf)@.len()
                &&& final(buf)@ == old(buf)@.skip(n as int)
                &&& match m {
                    Ok(v) => (r matches Ok(x) && x.model() == v),
                    Err(e) => r == Err::<Self, Error>(e),
                }
            }),
    ;

    /// Decodes the blob in the same way as [`RlpDecodable::rlp_decode`].
    fn rlp_decode_raw(buf: &mut &[u8]) -> (r: Result<Self>)
        ensures
            ({
                let (m, n) = Self::spec_rlp_decode(old(buf)@);
                &&& n <= old(buf)@.len()
                &&& final(buf)@ == old(buf)@.skip(n as int)
                &&& match m {
                    Ok(v) => (r matches Ok(x) && x.model() == v),
                    Err(e) => r == Err::<Self, Error>(e),
                }
            }),
    {
        Self::rlp_decode(buf)
    }
}

/// Decoding an unsigned integer of `width` bytes: a string item whose payload
/// is a big-endian number of at most `width` bytes without a leading zero.
pub open spec fn spec_decode_uint(s: Seq<u8>, width: nat) -> (Result<nat>, nat) {
    let (r, n) = spec_decode_bytes(s, false);
    (
        match r {
            Err(e) => Err(e),
            Ok(p) => match spec_left_pad(p, width) {
                Err(e) => Err(e),
                Ok(_) => Ok(be_nat(p)),
            },
        },
        n,
    )
}

/// Decoding a signed integer of `width` bytes: the payload is read as an
/// unsigned one, right-aligned in `width` bytes and taken in two's complement.
pub open spec fn spec_decode_sint(s: Seq<u8>, width: nat) -> (Result<int>, nat) {
    let (r, n) = spec_decode_bytes(s, false);
    (
        match r {
            Err(e) => Err(e),
            Ok(p) => match spec_left_pad(p, width) {
                Err(e) => Err(e),
                Ok(a) => Ok(be_int(a)),
            },
        },
        n,
    )
}

/// The number of bytes in a `usize` on this machine.
pub open spec fn usize_width() -> nat {
    if usize::BITS == 64 {
        8
    } else {
        4
    }
}

impl RlpDecodable for u8 {
    type Model = nat;

    open spec fn model(&self) -> nat {
        *self as nat
    }

    open spec fn spec_rlp_decode(input: Seq<u8>) -> (Result<nat>, nat) {
        spec_decode_uint(input, 1)
    }

    fn rlp_decode(buf: &mut &[u8]) -> (r: Result<Self>) {
        let bytes = Header::decode_bytes(buf, false)?;
        let padded = static_left_pad::<1>(bytes)?;
        proof {
            lemma_left_pad_value(bytes@, 1);
        }
        Ok(u8_from_be(padded))
    }
}

impl RlpDecodable for u16 {
    type Model = nat;

    open spec fn model(&self) -> nat {
        *self as nat
    }

    open spec fn spec_rlp_decode(input: Seq<u8>) -> (Result<nat>, nat) {
        spec_decode_uint(input, 2)
    }

    fn rlp_decode(buf: &mut &[u8]) -> (r: Result<Self>) {
        let bytes = Header::decode_bytes(buf, false)?;
        let padded = static_left_pad::<2>(bytes)?;
        proof {
            lemma_left_pad_value(bytes@, 2);
        }
        Ok(u16_from_be(padded))
    }
}

impl RlpDecodable for u32 {
    type Model = nat;

    open spec fn model(&self) -> nat {
        *self as nat
    }

    open spec fn spec_rlp_decode(input: Seq<u8>) -> (Result<nat>, nat) {
        spec_decode_uint(input, 4)
    }

    fn rlp_decode(buf: &mut &[u8]) -> (r: Result<Self>) {
        let bytes = Header::decode_bytes(buf, false)?;
        let padded = static_left_pad::<4>(bytes)?;
        proof {
            lemma_left_pad_value(bytes@, 4);
        }
        Ok(u32_from_be(padded))
    }
}

impl RlpDecodable for u64 {
    type Model = nat;

    open spec fn model(&self) -> nat {
        *self as nat
    }

    open spec fn spec_rlp_decode(input: Seq<u8>) -> (Result<nat>, nat) {
        spec_decode_uint(input, 8)
    }

    fn rlp_decode(buf: &mut &[u8]) -> (r: Result<Self>) {
        let bytes = Header::decode_bytes(buf, false)?;
        let padded = static_left_pad::<8>(bytes)?;
        proof {
            lemma_left_pad_value(bytes@, 8);
        }
        Ok(u64_from_be(padded))
    }
}

impl RlpDecodable for u128 {
    type Model = nat;

    open spec fn model(&self) -> nat {
        *self as nat
    }

    open spec fn spec_rlp_decode(input: Seq<u8>) -> (Result<nat>, nat) {
        spec_decode_uint(input, 16)
    }

    fn rlp_decode(buf: &mut &[u8]) -> (r: Result<Self>) {
        let bytes = Header::decode_bytes(buf, false)?;
        let padded = static_left_pad::<16>(bytes)?;
        proof {
            lemma_left_pad_value(bytes@, 16);
        }
        Ok(u128_from_be(padded))
    }
}

impl RlpDecodable for i8 {
    type Model = int;

    open spec fn model(&self) -> int {
        *self as int
    }

    open spec fn spec_rlp_decode(input: Seq<u8>) -> (Result<int>, nat) {
        spec_decode_sint(input, 1)
    }

    fn rlp_decode(buf: &mut &[u8]) -> (r: Result<Self>) {
        let bytes = Header::decode_bytes(buf, false)?;
        let padded = static_left_pad::<1>(bytes)?;
        Ok(i8_from_be(padded))
    }
}

impl RlpDecodable for i16 {
    type Model = int;

    open spec fn model(&self) -> int {
        *self as int
    }

    open spec fn spec_rlp_decode(input: Seq<u8>) -> (Result<int>, nat) {
        spec_decode_sint(input, 2)
    }

    fn rlp_decode(buf: &mut &[u8]) -> (r: Result<Self>) {
        let bytes = Header::decode_bytes(buf, false)?;
        let padded = static_left_pad::<2>(bytes)?;
        Ok(i16_from_be(padded))
    }
}

impl RlpDecodable for i32 {
    type Model = int;

    open spec fn model(&self) -> int {
        *self as int
    }

    open spec fn spec_rlp_decode(input: Seq<u8>) -> (Result<int>, nat) {
        spec_decode_sint(input, 4)
    }

    fn rlp_decode(buf: &mut &[u8]) -> (r: Result<Self>) {
        let bytes = Header::decode_bytes(buf, false)?;
        let padded = static_left_pad::<4>(bytes)?;
        Ok(i32_from_be(padded))
    }
}

impl RlpDecodable for i64 {
    type Model = int;

    open spec fn model(&self) -> int {
        *self as int
    }

    open spec fn spec_rlp_decode(input: Seq<u8>) -> (Result<int>, nat) {
        spec_decode_sint(input, 8)
    }

    fn rlp_decode(buf: &mut &[u8]) -> (r: Result<Self>) {
        let bytes = Header::decode_bytes(buf, false)?;
        let padded = static_left_pad::<8>(bytes)?;
        Ok(i64_from_be(padded))
    }
}

impl RlpDecodable for i128 {
    type Model = int;

    open spec fn model(&self) -> int {
        *self as int
    }

    open spec fn spec_rlp_decode(input: Seq<u8>) -> (Result<int>, nat) {
        spec_decode_sint(input, 16)
    }

    fn rlp_decode(buf: &mut &[u8]) -> (r: Result<Self>) {
        let bytes = Header::decode_bytes(buf, false)?;
        let padded = static_left_pad::<16>(bytes)?;
        Ok(i128_from_be(padded))
    }
}

impl RlpDecodable for usize {
    type Model = nat;

    open spec fn model(&self) -> nat {
        *self as nat
    }

    open spec fn spec_rlp_decode(input: Seq<u8>) -> (Result<nat>, nat) {
        spec_decode_uint(input, usize_width())
    }

    fn rlp_decode(buf: &mut &[u8]) -> (r: Result<Self>) {
        let bytes = Header::decode_bytes(buf, false)?;
        if usize::BITS == 64 {
            let padded = static_left_pad::<8>(bytes)?;
            proof {
                lemma_left_pad_value(bytes@, 8);
            }
            Ok(u64_from_be(padded) as usize)
        } else {
            let padded = static_left_pad::<4>(bytes)?;
            proof {
                lemma_left_pad_value(bytes@, 4);
            }
            Ok(u32_from_be(padded) as usize)
        }
    }
}

impl RlpDecodable for isize {
    type Model = int;

    open spec fn model(&self) -> int {
        *self as int
    }

    open spec fn spec_rlp_decode(input: Seq<u8>) -> (Result<int>, nat) {
        spec_decode_sint(input, usize_width())
    }

    fn rlp_decode(buf: &mut &[u8]) -> (r: Result<Self>) {
        let bytes = Header::decode_bytes(buf, false)?;
        if usize::BITS == 64 {
            let padded = static_left_pad::<8>(bytes)?;
            Ok(i64_from_be(padded) as isize)
        } else {
            let padded = static_left_pad::<4>(bytes)?;
            Ok(i32_from_be(padded) as isize)
        }
    }
}

impl RlpDecodable for bool {
    type Model = bool;

    open spec fn model(&self) -> bool {
        *self
    }

    /// A boolean is the integer `0` or `1`.
    open spec fn spec_rlp_decode(input: Seq<u8>) -> (Result<bool>, nat) {
        let (r, n) = spec_decode_uint(input, 1);
        (
            match r {
                Err(e) => Err(e),
                Ok(v) => if v == 0 {
                    Ok(false)
                } else if v == 1 {
                    Ok(true)
                } else {
                    Err(Error::Custom("invalid bool value, must be 0 or 1"))
                },
            },
            n,
        )
    }

    fn rlp_decode(buf: &mut &[u8]) -> (r: Result<Self>) {
        let v: u8 = u8::rlp_decode(buf)?;
        if v == 0 {
            Ok(false)
        } else if v == 1 {
            Ok(true)
        } else {
            Err(Error::Custom("invalid bool value, must be 0 or 1"))
        }
    }
}

impl<const N: usize> RlpDecodable for [u8; N] {
    type Model = Seq<u8>;

    open spec fn model(&self) -> Seq<u8> {
        self@
    }

    /// A string item whose payload has exactly `N` bytes.
    open spec fn spec_rlp_decode(input: Seq<u8>) -> (Result<Seq<u8>>, nat) {
        let (r, n) = spec_decode_bytes(input, false);
        (
            match r {
                Err(e) => Err(e),
                Ok(p) => if p.len() == N {
                    Ok(p)
                } else {
                    Err(Error::UnexpectedLength)
                },
            },
            n,
        )
    }

    fn rlp_decode(buf: &mut &[u8]) -> (r: Result<Self>) {
        let bytes = Header::decode_bytes(buf, false)?;
        match array_try_from_slice::<N>(bytes) {
            Some(a) => Ok(a),
            None => Err(Error::UnexpectedLength),
        }
    }
}

impl RlpDecodable for Bytes {
    type Model = Seq<u8>;

    open spec fn model(&self) -> Seq<u8> {
        bytes_contents(*self)
    }

    /// The payload of a string item.
    open spec fn spec_rlp_decode(input: Seq<u8>) -> (Result<Seq<u8>>, nat) {
        spec_decode_bytes(input, false)
    }

    fn rlp_decode(buf: &mut &[u8]) -> (r: Result<Self>) {
        let bytes = Header::decode_bytes(buf, false)?;
        Ok(bytes_from_vec(vstd::slice::slice_to_vec(bytes)))
    }
}

impl RlpDecodable for BytesMut {
    type Model = Seq<u8>;

    open spec fn model(&self) -> Seq<u8> {
        bytes_mut_contents(*self)
    }

    /// The payload of a string item.
    open spec fn spec_rlp_decode(input: Seq<u8>) -> (Result<Seq<u8>>, nat) {
        spec_decode_bytes(input, false)
    }

    fn rlp_decode(buf: &mut &[u8]) -> (r: Result<Self>) {
        let bytes = Header::decode_bytes(buf, false)?;
        Ok(bytes_mut_from_slice(bytes))
    }
}

impl RlpDecodable for String {
    type Model = Seq<char>;

    open spec fn model(&self) -> Seq<char> {
        self@
    }

    /// The payload of a string item, read as UTF-8.
    open spec fn spec_rlp_decode(input: Seq<u8>) -> (Result<Seq<char>>, nat) {
        spec_decode_str(input)
    }

    fn rlp_decode(buf: &mut &[u8]) -> (r: Result<Self>) {
        let text = Header::decode_str(buf)?;
        Ok(text.to_owned())
    }
}

/// Decoding the items of a list payload one after the other, to its end.
/// An item that decodes without consuming any byte stops the list with an
/// error, since the list would never end.
pub open spec fn spec_decode_list<T: RlpDecodable>(p: Seq<u8>) -> Result<Seq<T::Model>>
    decreases p.len(),
{
    if p.len() == 0 {
        Ok(Seq::empty())
    } else {
        let (r, n) = T::spec_rlp_decode(p);
        match r {
            Err(e) => Err(e),
            Ok(m) => if 0 < n <= p.len() {
                match spec_decode_list::<T>(p.skip(n as int)) {
                    Ok(ms) => Ok(seq![m] + ms),
                    Err(e) => Err(e),
                }
            } else {
                Err(Error::Custom("list item consumed no input"))
            },
        }
    }
}

/// `done` in front of the items of `rest`, or the error of `rest`.
pub open spec fn prepend_items<M>(done: Seq<M>, rest: Result<Seq<M>>) -> Result<Seq<M>> {
    match rest {
        Ok(ms) => Ok(done + ms),
        Err(e) => Err(e),
    }
}

impl<T: RlpDecodable> RlpDecodable for Vec<T> {
    type Model = Seq<T::Model>;

    open spec fn model(&self) -> Seq<T::Model> {
        self@.map_values(|x: T| x.model())
    }

    /// A list item whose payload is a sequence of items of `T`.
    open spec fn spec_rlp_decode(input: Seq<u8>) -> (Result<Seq<T::Model>>, nat) {
        let (r, n) = spec_decode_bytes(input, true);
        (
            match r {
                Err(e) => Err(e),
                Ok(p) => spec_decode_list::<T>(p),
            },
            n,
        )
    }

    fn rlp_decode(buf: &mut &[u8]) -> (r: Result<Self>) {
        let ghost input = buf@;
        let mut payload = Header::decode_bytes(buf, true)?;
        let ghost whole = payload@;
        let ghost after = buf@;
        let ghost consumed = spec_decode_bytes(input, true).1;
        let mut vec: Vec<T> = Vec::new();
        let ghost mut done: Seq<T::Model> = Seq::empty();
        while !payload.is_empty()
            invariant
                buf@ == after,
                input == old(buf)@,
                spec_decode_bytes(input, true) == (Ok::<Seq<u8>, Error>(whole), consumed),
                consumed <= input.len(),
                after == input.skip(consumed as int),
                vec@.len() == done.len(),
                forall|i: int| 0 <= i < vec@.len() ==> (#[trigger] vec@[i]).model() == done[i],
                spec_decode_list::<T>(whole) == prepend_items(done, spec_decode_list::<T>(payload@)),
            decreases payload@.len(),
        {
            let len_before: usize = payload.len();
            let item = match T::rlp_decode(&mut payload) {
                Ok(item) => item,
                Err(e) => {
                    return Err(e);
                },
            };
            if payload.len() == len_before {
                return Err(Error::Custom("list item consumed no input"));
            }
            proof {
                // The items still to come follow the one just read.
                assert(done + (seq![item.model()] + spec_decode_list::<T>(payload@)->Ok_0) =~= done.push(
                    item.model(),
                ) + spec_decode_list::<T>(payload@)->Ok_0);
                done = done.push(item.model());
            }
            vec.push(item);
        }
        proof {
            assert(done + Seq::<T::Model>::empty() =~= done);
            assert(vec@.map_values(|x: T| x.model()) =~= done);
        }
        Ok(vec)
    }
}

impl<T: RlpDecodable> RlpDecodable for Box<T> {
    type Model = T::Model;

    open spec fn model(&self) -> T::Model {
        (**self).model()
    }

    open spec fn spec_rlp_decode(input: Seq<u8>) -> (Result<T::Model>, nat) {
        T::spec_rlp_decode(input)
    }

    fn rlp_decode(buf: &mut &[u8]) -> (r: Result<Self>) {
        match T::rlp_decode(buf) {
            Ok(v) => Ok(Box::new(v)),
            Err(e) => Err(e),
        }
    }
}

impl<T: RlpDecodable> RlpDecodable for Rc<T> {
    type Model = T::Model;

    open spec fn model(&self) -> T::Model {
        (**self).model()
    }

    open spec fn spec_rlp_decode(input: Seq<u8>) -> (Result<T::Model>, nat) {
        T::spec_rlp_decode(input)
    }

    fn rlp_decode(buf: &mut &[u8]) -> (r: Result<Self>) {
        match T::rlp_decode(buf) {
            Ok(v) => Ok(Rc::new(v)),
            Err(e) => Err(e),
        }
    }
}

impl<T: RlpDecodable> RlpDecodable for Arc<T> {
    type Model = T::Model;

    open spec fn model(&self) -> T::Model {
        (**self).model()
    }

    open spec fn spec_rlp_decode(input: Seq<u8>) -> (Result<T::Model>, nat) {
        T::spec_rlp_decode(input)
    }

    fn rlp_decode(buf: &mut &[u8]) -> (r: Result<Self>) {
        match T::rlp_decode(buf) {
            Ok(v) => Ok(Arc::new(v)),
            Err(e) => Err(e),
        }
    }
}

impl<T: ?Sized> RlpDecodable for PhantomData<T> {
    type Model = ();

    open spec fn model(&self) -> () {
        ()
    }

    /// Always succeeds and consumes nothing.
    open spec fn spec_rlp_decode(input: Seq<u8>) -> (Result<()>, nat) {
        (Ok(()), 0)
    }

    fn rlp_decode(buf: &mut &[u8]) -> (r: Result<Self>) {
        Ok(PhantomData)
    }
}

impl RlpDecodable for PhantomPinned {
    type Model = ();

    open spec fn model(&self) -> () {
        ()
    }

    /// Always succeeds and consumes nothing.
    open spec fn spec_rlp_decode(input: Seq<u8>) -> (Result<()>, nat) {
        (Ok(()), 0)
    }

    fn rlp_decode(buf: &mut &[u8]) -> (r: Result<Self>) {
        Ok(phantom_pinned())
    }
}

impl<T: ?Sized + ToOwned> RlpDecodable for Cow<'_, T> where T::Owned: RlpDecodable {
    /// Only owned values are produced by decoding; a borrowed value has no model.
    type Model = Option<<T::Owned as RlpDecodable>::Model>;

    open spec fn model(&self) -> Self::Model {
        match self {
            Cow::Owned(v) => Some(v.model()),
            Cow::Borrowed(_) => None,
        }
    }

    /// Decodes the owned form.
    open spec fn spec_rlp_decode(input: Seq<u8>) -> (Result<Self::Model>, nat) {
        let (r, n) = <T::Owned as RlpDecodable>::spec_rlp_decode(input);
        (
            match r {
                Ok(m) => Ok(Some(m)),
                Err(e) => Err(e),
            },
            n,
        )
    }

    fn rlp_decode(buf: &mut &[u8]) -> (r: Result<Self>) {
        match <T::Owned as RlpDecodable>::rlp_decode(buf) {
            Ok(v) => Ok(Cow::Owned(v)),
            Err(e) => Err(e),
        }
    }
}

/// The raw length of a value, as the encoder counts it.
pub trait RlpLength {
    fn rlp_len_raw(&self) -> usize;
}

impl<T: RlpDecodable> RlpLength for Vec<T> {
    /// A vector reports a raw length of zero.
    fn rlp_len_raw(&self) -> (r: usize)
        ensures
            r == 0,
    {
        0
    }
}

impl<const N: usize> RlpDecodable for ByteArrayVec<N> {
    type Model = Seq<u8>;

    open spec fn model(&self) -> Seq<u8> {
        self.contents()
    }

    /// As an array of `N` bytes: a string item whose payload has exactly `N`
    /// bytes. A capacity above `u32::MAX`, which `ArrayVec` does not support,
    /// is refused before anything is read.
    open spec fn spec_rlp_decode(input: Seq<u8>) -> (Result<Seq<u8>>, nat) {
        if N > u32::MAX {
            (Err(Error::Custom("ArrayVec: largest supported capacity is u32::MAX")), 0)
        } else {
            <[u8; N] as RlpDecodable>::spec_rlp_decode(input)
        }
    }

    fn rlp_decode(buf: &mut &[u8]) -> (r: Result<Self>) {
        if N > u32::MAX as usize {
            return Err(Error::Custom("ArrayVec: largest supported capacity is u32::MAX"));
        }
        let array = <[u8; N]>::rlp_decode(buf)?;
        Ok(byte_array_vec_from(array))
    }
}

/// Decodes an `ArrayVec<u8, N>` from an array of `N` bytes, advancing `buf`
/// past it. On success the vector is the one of a [`ByteArrayVec`] that holds
/// the payload.
///
/// # Errors
///
/// Those of decoding a [`ByteArrayVec`].
pub fn decode_arrayvec<const N: usize>(buf: &mut &[u8]) -> (r: Result<ArrayVec<u8, N>>)
    ensures
        ({
            let (m, n) = <ByteArrayVec<N> as RlpDecodable>::spec_rlp_decode(old(buf)@);
            &&& n <= old(buf)@.len()
            &&& final(buf)@ == old(buf)@.skip(n as int)
            &&& match m {
                Ok(p) => (r matches Ok(a) && exists|v: ByteArrayVec<N>|
                    #[trigger] v.inner() == a && v.contents() == p),
                Err(e) => r == Err::<ArrayVec<u8, N>, Error>(e),
            }
        }),
{
    let v = ByteArrayVec::<N>::rlp_decode(buf)?;
    let ghost w = v;
    let a = v.into_inner();
    assert(w.inner() == a);
    Ok(a)
}

} // verus!
