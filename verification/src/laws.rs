use vstd::prelude::*;
use crate::be::{be_int, be_nat, lemma_be_nat_bound, lemma_be_nat_high_bit, pow256};
use crate::decode::{spec_decode_list, spec_decode_sint, spec_decode_uint, RlpDecodable};
use crate::foreign::ByteArrayVec;
use crate::header::spec_decode_str;
use crate::net::{IpAddr, Ipv4Addr, Ipv6Addr};
use bytes::{Bytes, BytesMut};
use vstd::utf8::encode_utf8;
use crate::error::Error;
use crate::header::{lemma_left_pad_value, spec_decode_bytes, spec_header, spec_left_pad, Header};

verus! {

/// The shortest big-endian bytes of `n`: no leading zero byte, and none at all
/// for zero.
pub open spec fn be_trimmed(n: nat) -> Seq<u8>
    decreases n,
{
    if n == 0 {
        Seq::empty()
    } else {
        be_trimmed(n / 256) + seq![(n % 256) as u8]
    }
}

/// The canonical header of an item (a list or a string) with a payload of
/// `len` bytes: one byte below 56, else a byte that counts the length's
/// bytes followed by the length.
pub open spec fn encode_header(list: bool, len: nat) -> Seq<u8> {
    let short: nat = if list {
        0xC0
    } else {
        0x80
    };
    if len < 56 {
        seq![(short + len) as u8]
    } else {
        seq![(short + 55 + be_trimmed(len).len()) as u8] + be_trimmed(len)
    }
}

/// The canonical encoding of a byte string: a single byte below `0x80` is its
/// own encoding; any other string gets a header.
pub open spec fn encode_bytes(p: Seq<u8>) -> Seq<u8> {
    if p.len() == 1 && p[0] < 0x80 {
        p
    } else {
        encode_header(false, p.len()) + p
    }
}

/// The canonical encoding of a list whose items, already encoded, make up
/// `payload`.
pub open spec fn encode_list(payload: Seq<u8>) -> Seq<u8> {
    encode_header(true, payload.len()) + payload
}

/// The canonical encoding of an unsigned integer: its shortest big-endian
/// bytes as a string.
pub open spec fn encode_uint(v: nat) -> Seq<u8> {
    encode_bytes(be_trimmed(v))
}

proof fn lemma_be_trimmed_value(n: nat)
    ensures
        be_nat(be_trimmed(n)) == n,
        n == 0 <==> be_trimmed(n).len() == 0,
        n > 0 ==> be_trimmed(n)[0] != 0,
    decreases n,
{
    if n > 0 {
        let t = be_trimmed(n / 256);
        let s = be_trimmed(n);
        lemma_be_trimmed_value(n / 256);
        assert(s.drop_last() =~= t);
        assert(s.last() == (n % 256) as u8);
        if n / 256 == 0 {
            assert(s =~= seq![(n % 256) as u8]);
        } else {
            assert(s[0] == t[0]);
        }
    }
}

proof fn lemma_be_trimmed_len(n: nat, k: nat)
    requires
        n < pow256(k),
    ensures
        be_trimmed(n).len() <= k,
    decreases n,
{
    if n > 0 {
        assert(k > 0);
        lemma_be_trimmed_len(n / 256, (k - 1) as nat);
    }
}

proof fn lemma_be_nat_leading_nonzero(s: Seq<u8>)
    requires
        s.len() > 0,
        s[0] != 0,
    ensures
        be_nat(s) > 0,
    decreases s.len(),
{
    if s.len() > 1 {
        lemma_be_nat_leading_nonzero(s.drop_last());
    }
}

/// Bytes without a leading zero are the shortest bytes of their value.
proof fn lemma_be_trimmed_of_value(s: Seq<u8>)
    requires
        s.len() == 0 || s[0] != 0,
    ensures
        be_trimmed(be_nat(s)) == s,
    decreases s.len(),
{
    if s.len() > 0 {
        let d = s.drop_last();
        let v: nat = be_nat(s);
        if d.len() == 0 {
            assert(be_nat(d) == 0);
            assert(v == s.last());
            assert(v / 256 == 0);
            assert(be_trimmed(v) =~= be_trimmed(0) + seq![(v % 256) as u8]);
            assert(be_trimmed(v) =~= seq![s.last()]);
            assert(s =~= seq![s.last()]);
        } else {
            lemma_be_trimmed_of_value(d);
            lemma_be_nat_leading_nonzero(d);
            assert(v / 256 == be_nat(d));
            assert(v % 256 == s.last());
            assert(s =~= d + seq![s.last()]);
        }
    }
}

proof fn lemma_pow256_8()
    ensures
        pow256(8) == 0x1_0000_0000_0000_0000,
{
    reveal_with_fuel(pow256, 9);
}

proof fn lemma_long_length(len: nat)
    requires
        56 <= len <= usize::MAX,
    ensures
        1 <= be_trimmed(len).len() <= 8,
        be_trimmed(len)[0] != 0,
        be_nat(be_trimmed(len)) == len,
{
    lemma_pow256_8();
    lemma_be_trimmed_len(len, 8);
    lemma_be_trimmed_value(len);
}

/// Reading the header of a canonically encoded item gives back the kind and
/// length it was encoded with, and consumes exactly the header.
proof fn lemma_header_of_encoding(list: bool, len: nat, rest: Seq<u8>)
    requires
        len <= usize::MAX,
        rest.len() >= len,
        !list && len == 1 ==> rest[0] >= 0x80,
    ensures
        spec_header(encode_header(list, len) + rest) == (
            Ok::<Header, Error>(Header { list, payload_length: len as usize }),
            encode_header(list, len).len(),
        ),
{
    let h = encode_header(list, len);
    let s = h + rest;
    assert(s[0] == h[0]);
    if len < 56 {
        assert(h.len() == 1);
        if !list && len == 1 {
            assert(s[1] == rest[0]);
        }
    } else {
        lemma_long_length(len);
        let lb = be_trimmed(len);
        assert(s.subrange(1, 1 + lb.len() as int) =~= lb);
        assert(s[1] == lb[0]);
        assert(s.len() - (1 + lb.len()) >= len);
    }
}

/// Decoding a canonically encoded string gives back its bytes, whatever
/// follows it, and consumes exactly the encoding.
pub proof fn lemma_decode_string_of_encoding(p: Seq<u8>, rest: Seq<u8>)
    requires
        p.len() <= usize::MAX,
    ensures
        spec_decode_bytes(encode_bytes(p) + rest, false) == (
            Ok::<Seq<u8>, Error>(p),
            encode_bytes(p).len(),
        ),
{
    let s = encode_bytes(p) + rest;
    if p.len() == 1 && p[0] < 0x80 {
        assert(s.subrange(0, 1) =~= p);
    } else {
        let h = encode_header(false, p.len());
        assert(s =~= h + (p + rest));
        lemma_header_of_encoding(false, p.len(), p + rest);
        assert(s.subrange(h.len() as int, (h.len() + p.len()) as int) =~= p);
    }
}

/// Decoding a canonically encoded list gives back its payload, whatever
/// follows it, and consumes exactly the encoding.
pub proof fn lemma_decode_list_of_encoding(payload: Seq<u8>, rest: Seq<u8>)
    requires
        payload.len() <= usize::MAX,
    ensures
        spec_decode_bytes(encode_list(payload) + rest, true) == (
            Ok::<Seq<u8>, Error>(payload),
            encode_list(payload).len(),
        ),
{
    let h = encode_header(true, payload.len());
    let s = encode_list(payload) + rest;
    assert(s =~= h + (payload + rest));
    lemma_header_of_encoding(true, payload.len(), payload + rest);
    assert(s.subrange(h.len() as int, (h.len() + payload.len()) as int) =~= payload);
}

/// Whatever the decoder accepts is written canonically: the bytes it consumed
/// are exactly the canonical encoding of what it returned. No two encodings
/// of one value are both accepted.
pub proof fn lemma_decode_accepts_only_canonical(s: Seq<u8>, is_list: bool)
    ensures
        spec_decode_bytes(s, is_list) matches (Ok(p), n) ==> s.take(n as int) == (if is_list {
            encode_list(p)
        } else {
            encode_bytes(p)
        }),
{
    if let (Ok(p), n) = spec_decode_bytes(s, is_list) {
        let b: u8 = s[0];
        if b < 0x80 {
            assert(s.take(n as int) =~= p);
        } else if b <= 0xB7 || (0xC0 <= b && b <= 0xF7) {
            assert(s.take(n as int) =~= seq![b] + p);
        } else {
            let lol: int = if is_list {
                b - 0xF7
            } else {
                b - 0xB7
            };
            let lb = s.subrange(1, 1 + lol);
            assert(lb[0] == s[1]);
            lemma_be_trimmed_of_value(lb);
            assert(s.take(n as int) =~= seq![b] + lb + p);
        }
    }
}

/// Decoding depends only on the item itself: an accepted item decodes to the
/// same value, consuming the same bytes, whatever follows it.
pub proof fn lemma_decode_ignores_what_follows(s: Seq<u8>, is_list: bool, t: Seq<u8>)
    ensures
        spec_decode_bytes(s, is_list) matches (Ok(p), n) ==> spec_decode_bytes(
            s.take(n as int) + t,
            is_list,
        ) == spec_decode_bytes(s, is_list),
{
    if let (Ok(p), n) = spec_decode_bytes(s, is_list) {
        lemma_decode_accepts_only_canonical(s, is_list);
        let h = spec_header(s).0->Ok_0;
        assert(p.len() == h.payload_length);
        if is_list {
            lemma_decode_list_of_encoding(p, t);
        } else {
            lemma_decode_string_of_encoding(p, t);
        }
    }
}

/// An unsigned integer of `width` bytes decodes from its canonical encoding
/// to itself, whatever follows it.
pub proof fn lemma_decode_uint_of_encoding(v: nat, width: nat, rest: Seq<u8>)
    requires
        v < pow256(width),
        width <= 16,
    ensures
        spec_decode_uint(encode_uint(v) + rest, width) == (
            Ok::<nat, Error>(v),
            encode_uint(v).len(),
        ),
{
    lemma_be_trimmed_len(v, width);
    lemma_be_trimmed_value(v);
    lemma_decode_string_of_encoding(be_trimmed(v), rest);
}

/// An unsigned integer that the decoder accepts was written canonically: the
/// bytes consumed are the canonical encoding of the value returned.
pub proof fn lemma_decode_uint_accepts_only_canonical(s: Seq<u8>, width: nat)
    ensures
        spec_decode_uint(s, width) matches (Ok(v), n) ==> s.take(n as int) == encode_uint(v),
{
    if let (Ok(v), n) = spec_decode_uint(s, width) {
        lemma_decode_accepts_only_canonical(s, false);
        let p = spec_decode_bytes(s, false).0->Ok_0;
        assert(spec_left_pad(p, width) is Ok);
        lemma_be_trimmed_of_value(p);
    }
}

/// The canonical encodings of unsigned integers, one after the other: the
/// payload of a list of them.
pub open spec fn encode_uint_items(vs: Seq<nat>) -> Seq<u8>
    decreases vs.len(),
{
    if vs.len() == 0 {
        Seq::empty()
    } else {
        encode_uint(vs[0]) + encode_uint_items(vs.drop_first())
    }
}

/// The items of a payload of canonically encoded `u64` values decode to
/// those values, in order.
pub proof fn lemma_decode_u64_items(vs: Seq<nat>)
    requires
        forall|i: int| 0 <= i < vs.len() ==> vs[i] < pow256(8),
        encode_uint_items(vs).len() <= usize::MAX,
    ensures
        spec_decode_list::<u64>(encode_uint_items(vs)) == Ok::<Seq<nat>, Error>(vs),
    decreases vs.len(),
{
    if vs.len() > 0 {
        let head = encode_uint(vs[0]);
        let tail = encode_uint_items(vs.drop_first());
        let p = encode_uint_items(vs);
        lemma_decode_uint_of_encoding(vs[0], 8, tail);
        assert(p =~= head + tail);
        assert(p.skip(head.len() as int) =~= tail);
        lemma_decode_u64_items(vs.drop_first());
        assert(seq![vs[0]] + vs.drop_first() =~= vs);
    } else {
        assert(encode_uint_items(vs) =~= Seq::<u8>::empty());
        assert(vs =~= Seq::<nat>::empty());
    }
}

/// A list of canonically encoded `u64` values decodes, as a `Vec<u64>`, to
/// those values, whatever follows the list.
pub proof fn lemma_decode_u64_list_of_encoding(vs: Seq<nat>, rest: Seq<u8>)
    requires
        forall|i: int| 0 <= i < vs.len() ==> vs[i] < pow256(8),
        encode_uint_items(vs).len() <= usize::MAX,
    ensures
        <Vec<u64> as RlpDecodable>::spec_rlp_decode(encode_list(encode_uint_items(vs)) + rest) == (
            Ok::<Seq<nat>, Error>(vs),
            encode_list(encode_uint_items(vs)).len(),
        ),
{
    lemma_decode_list_of_encoding(encode_uint_items(vs), rest);
    lemma_decode_u64_items(vs);
}

/// Byte strings one after the other.
pub open spec fn concat(chunks: Seq<Seq<u8>>) -> Seq<u8>
    decreases chunks.len(),
{
    if chunks.len() == 0 {
        Seq::empty()
    } else {
        chunks[0] + concat(chunks.drop_first())
    }
}

/// A list payload decodes item by item: when each chunk decodes on its own to
/// a value, consuming exactly itself and at least one byte whatever follows
/// it, the chunks one after the other decode to those values in order.
pub proof fn lemma_decode_list_items<T: RlpDecodable>(chunks: Seq<Seq<u8>>, models: Seq<T::Model>)
    requires
        chunks.len() == models.len(),
        forall|i: int, rest: Seq<u8>|
            0 <= i < chunks.len() ==> #[trigger] T::spec_rlp_decode(chunks[i] + rest) == (
                Ok::<T::Model, Error>(models[i]),
                chunks[i].len(),
            ),
        forall|i: int| 0 <= i < chunks.len() ==> (#[trigger] chunks[i]).len() > 0,
    ensures
        spec_decode_list::<T>(concat(chunks)) == Ok::<Seq<T::Model>, Error>(models),
    decreases chunks.len(),
{
    if chunks.len() == 0 {
        assert(concat(chunks) =~= Seq::<u8>::empty());
        assert(models =~= Seq::<T::Model>::empty());
    } else {
        let head = chunks[0];
        let tail = concat(chunks.drop_first());
        let p = concat(chunks);
        assert(p =~= head + tail);
        assert(T::spec_rlp_decode(head + tail) == (Ok::<T::Model, Error>(models[0]), head.len()));
        assert(p.skip(head.len() as int) =~= tail);
        assert forall|i: int, rest: Seq<u8>|
            0 <= i < chunks.drop_first().len() implies #[trigger] T::spec_rlp_decode(
            chunks.drop_first()[i] + rest) == (
            Ok::<T::Model, Error>(models.drop_first()[i]),
            chunks.drop_first()[i].len(),
        ) by {
            assert(T::spec_rlp_decode(chunks[i + 1] + rest) == (
                Ok::<T::Model, Error>(models[i + 1]),
                chunks[i + 1].len(),
            ));
        }
        assert forall|i: int| 0 <= i < chunks.drop_first().len() implies (
        #[trigger] chunks.drop_first()[i]).len() > 0 by {
            assert(chunks[i + 1].len() > 0);
        }
        lemma_decode_list_items::<T>(chunks.drop_first(), models.drop_first());
        assert(seq![models[0]] + models.drop_first() =~= models);
    }
}

/// Reading the head of a decoded list payload: an empty payload holds no
/// items; otherwise the first item decodes to the first model, consuming at
/// least one byte, and the rest of the payload holds the other items.
proof fn lemma_list_head<T: RlpDecodable>(q: Seq<u8>, ms: Seq<T::Model>)
    requires
        spec_decode_list::<T>(q) == Ok::<Seq<T::Model>, Error>(ms),
    ensures
        q.len() == 0 <==> ms.len() == 0,
        q.len() > 0 ==> ({
            let (r, n) = T::spec_rlp_decode(q);
            &&& r == Ok::<T::Model, Error>(ms[0])
            &&& 0 < n <= q.len()
            &&& spec_decode_list::<T>(q.skip(n as int)) == Ok::<Seq<T::Model>, Error>(
                ms.drop_first(),
            )
        }),
{
    if q.len() > 0 {
        let (r, n) = T::spec_rlp_decode(q);
        let rest = spec_decode_list::<T>(q.skip(n as int))->Ok_0;
        assert(ms =~= seq![r->Ok_0] + rest);
        assert(ms.drop_first() =~= rest);
    }
}

/// What is left of a list payload after a decoder of `T` has read `i` items
/// from it.
pub open spec fn list_rest<T: RlpDecodable>(p: Seq<u8>, i: nat) -> Seq<u8>
    decreases i,
{
    if i == 0 {
        p
    } else {
        let q = list_rest::<T>(p, (i - 1) as nat);
        q.skip(T::spec_rlp_decode(q).1 as int)
    }
}

/// A decoder walks a list exactly as decoding a `Vec<T>` does. When the list
/// payload decodes to the models `ms`, then after `i` items have been read,
/// the rest decodes to the remaining models; while items remain, the next
/// one read is `ms[i]` and consumes at least one byte; once all are read,
/// the rest is empty, so the next read gives `None`.
pub proof fn lemma_decoder_walks_list<T: RlpDecodable>(p: Seq<u8>, ms: Seq<T::Model>, i: nat)
    requires
        spec_decode_list::<T>(p) == Ok::<Seq<T::Model>, Error>(ms),
        i <= ms.len(),
    ensures
        spec_decode_list::<T>(list_rest::<T>(p, i)) == Ok::<Seq<T::Model>, Error>(ms.skip(i as int)),
        i < ms.len() ==> ({
            let q = list_rest::<T>(p, i);
            let (r, n) = T::spec_rlp_decode(q);
            &&& q.len() > 0
            &&& r == Ok::<T::Model, Error>(ms[i as int])
            &&& 0 < n <= q.len()
        }),
        i == ms.len() ==> list_rest::<T>(p, i).len() == 0,
    decreases i,
{
    if i == 0 {
        assert(ms.skip(0) =~= ms);
    } else {
        lemma_decoder_walks_list::<T>(p, ms, (i - 1) as nat);
        let q = list_rest::<T>(p, (i - 1) as nat);
        lemma_list_head::<T>(q, ms.skip(i - 1));
        assert(ms.skip(i - 1).drop_first() =~= ms.skip(i as int));
    }
    lemma_list_head::<T>(list_rest::<T>(p, i), ms.skip(i as int));
}

/// Every type that reads a header consumes at least one byte when it
/// succeeds; only the marker types (`PhantomData`, `PhantomPinned`) succeed
/// without consuming, so a decoder walking a list of header-reading items
/// always moves on.
pub proof fn lemma_header_reading_progress<T: RlpDecodable, const N: usize>(s: Seq<u8>, width: nat)
    ensures
        spec_decode_bytes(s, false).0 is Ok ==> spec_decode_bytes(s, false).1 > 0,
        spec_decode_bytes(s, true).0 is Ok ==> spec_decode_bytes(s, true).1 > 0,
        spec_decode_uint(s, width).0 is Ok ==> spec_decode_uint(s, width).1 > 0,
        spec_decode_sint(s, width).0 is Ok ==> spec_decode_sint(s, width).1 > 0,
        spec_decode_str(s).0 is Ok ==> spec_decode_str(s).1 > 0,
        <u8 as RlpDecodable>::spec_rlp_decode(s).0 is Ok ==> <u8 as RlpDecodable>::spec_rlp_decode(s).1 > 0,
        <u16 as RlpDecodable>::spec_rlp_decode(s).0 is Ok ==> <u16 as RlpDecodable>::spec_rlp_decode(s).1 > 0,
        <u32 as RlpDecodable>::spec_rlp_decode(s).0 is Ok ==> <u32 as RlpDecodable>::spec_rlp_decode(s).1 > 0,
        <u64 as RlpDecodable>::spec_rlp_decode(s).0 is Ok ==> <u64 as RlpDecodable>::spec_rlp_decode(s).1 > 0,
        <u128 as RlpDecodable>::spec_rlp_decode(s).0 is Ok ==> <u128 as RlpDecodable>::spec_rlp_decode(s).1 > 0,
        <usize as RlpDecodable>::spec_rlp_decode(s).0 is Ok ==> <usize as RlpDecodable>::spec_rlp_decode(s).1 > 0,
        <i8 as RlpDecodable>::spec_rlp_decode(s).0 is Ok ==> <i8 as RlpDecodable>::spec_rlp_decode(s).1 > 0,
        <i16 as RlpDecodable>::spec_rlp_decode(s).0 is Ok ==> <i16 as RlpDecodable>::spec_rlp_decode(s).1 > 0,
        <i32 as RlpDecodable>::spec_rlp_decode(s).0 is Ok ==> <i32 as RlpDecodable>::spec_rlp_decode(s).1 > 0,
        <i64 as RlpDecodable>::spec_rlp_decode(s).0 is Ok ==> <i64 as RlpDecodable>::spec_rlp_decode(s).1 > 0,
        <i128 as RlpDecodable>::spec_rlp_decode(s).0 is Ok ==> <i128 as RlpDecodable>::spec_rlp_decode(s).1 > 0,
        <isize as RlpDecodable>::spec_rlp_decode(s).0 is Ok ==> <isize as RlpDecodable>::spec_rlp_decode(s).1 > 0,
        <bool as RlpDecodable>::spec_rlp_decode(s).0 is Ok ==> <bool as RlpDecodable>::spec_rlp_decode(s).1 > 0,
        <[u8; N] as RlpDecodable>::spec_rlp_decode(s).0 is Ok ==> <[u8; N] as RlpDecodable>::spec_rlp_decode(s).1 > 0,
        <ByteArrayVec<N> as RlpDecodable>::spec_rlp_decode(s).0 is Ok ==> <ByteArrayVec<N> as RlpDecodable>::spec_rlp_decode(s).1 > 0,
        <Bytes as RlpDecodable>::spec_rlp_decode(s).0 is Ok ==> <Bytes as RlpDecodable>::spec_rlp_decode(s).1 > 0,
        <BytesMut as RlpDecodable>::spec_rlp_decode(s).0 is Ok ==> <BytesMut as RlpDecodable>::spec_rlp_decode(s).1 > 0,
        <String as RlpDecodable>::spec_rlp_decode(s).0 is Ok ==> <String as RlpDecodable>::spec_rlp_decode(s).1 > 0,
        <Vec<T> as RlpDecodable>::spec_rlp_decode(s).0 is Ok ==> <Vec<T> as RlpDecodable>::spec_rlp_decode(s).1 > 0,
        <Ipv4Addr as RlpDecodable>::spec_rlp_decode(s).0 is Ok ==> <Ipv4Addr as RlpDecodable>::spec_rlp_decode(s).1 > 0,
        <Ipv6Addr as RlpDecodable>::spec_rlp_decode(s).0 is Ok ==> <Ipv6Addr as RlpDecodable>::spec_rlp_decode(s).1 > 0,
        <IpAddr as RlpDecodable>::spec_rlp_decode(s).0 is Ok ==> <IpAddr as RlpDecodable>::spec_rlp_decode(s).1 > 0,
{
}

/// A boolean decodes from the canonical encoding of `0` or `1` to itself.
pub proof fn lemma_decode_bool_of_encoding(b: bool, rest: Seq<u8>)
    ensures
        <bool as RlpDecodable>::spec_rlp_decode(encode_uint(if b { 1 } else { 0 }) + rest) == (
            Ok::<bool, Error>(b),
            encode_uint(if b { 1 } else { 0 }).len(),
        ),
{
    reveal_with_fuel(pow256, 2);
    lemma_decode_uint_of_encoding(if b { 1 } else { 0 }, 1, rest);
}

/// A string decodes from the canonical encoding of its UTF-8 bytes to its
/// characters, whatever follows it.
pub proof fn lemma_decode_text_of_encoding(chars: Seq<char>, rest: Seq<u8>)
    requires
        encode_utf8(chars).len() <= usize::MAX,
    ensures
        spec_decode_str(encode_bytes(encode_utf8(chars)) + rest) == (
            Ok::<Seq<char>, Error>(chars),
            encode_bytes(encode_utf8(chars)).len(),
        ),
{
    broadcast use vstd::utf8::encode_utf8_valid_utf8, vstd::utf8::encode_utf8_decode_utf8;

    lemma_decode_string_of_encoding(encode_utf8(chars), rest);
}

/// A fixed-size byte array decodes from the canonical encoding of its bytes
/// to those bytes, whatever follows it.
pub proof fn lemma_decode_array_of_encoding<const N: usize>(a: [u8; N], rest: Seq<u8>)
    ensures
        <[u8; N] as RlpDecodable>::spec_rlp_decode(encode_bytes(a@) + rest) == (
            Ok::<Seq<u8>, Error>(a@),
            encode_bytes(a@).len(),
        ),
{
    lemma_decode_string_of_encoding(a@, rest);
}

/// The canonical encoding of a signed integer of `width` bytes: a value that is
/// not negative as its unsigned encoding, a negative one as the unsigned
/// encoding of its `width`-byte two's complement.
pub open spec fn encode_sint(v: int, width: nat) -> Seq<u8> {
    if v >= 0 {
        encode_uint(v as nat)
    } else {
        encode_uint((v + pow256(width)) as nat)
    }
}

/// A signed integer of `width` bytes decodes from its canonical encoding to
/// itself, whatever follows it: a payload shorter than `width` is padded with
/// zero bytes, so only a full-width payload with the high bit set is negative.
pub proof fn lemma_decode_sint_of_encoding(v: int, width: nat, rest: Seq<u8>)
    requires
        1 <= width <= 16,
        -(128 * pow256((width - 1) as nat)) <= v < 128 * pow256((width - 1) as nat),
    ensures
        spec_decode_sint(encode_sint(v, width) + rest, width) == (
            Ok::<int, Error>(v),
            encode_sint(v, width).len(),
        ),
{
    let half: nat = pow256((width - 1) as nat);
    assert(pow256(width) == 256 * half);
    let n: nat = if v >= 0 {
        v as nat
    } else {
        (v + pow256(width)) as nat
    };
    assert(n < pow256(width));
    let p = be_trimmed(n);
    lemma_be_trimmed_len(n, width);
    lemma_be_trimmed_value(n);
    lemma_decode_string_of_encoding(p, rest);
    lemma_left_pad_value(p, width);
    let a = spec_left_pad(p, width)->Ok_0;
    lemma_be_nat_high_bit(a);
    assert(spec_decode_bytes(encode_sint(v, width) + rest, false) == (
        Ok::<Seq<u8>, Error>(p),
        encode_sint(v, width).len(),
    ));
}

proof fn lemma_pow256_values()
    ensures
        pow256(0) == 1,
        pow256(1) == 0x100,
        pow256(2) == 0x1_0000,
        pow256(3) == 0x100_0000,
        pow256(4) == 0x1_0000_0000,
        pow256(7) == 0x100_0000_0000_0000,
        pow256(8) == 0x1_0000_0000_0000_0000,
        pow256(15) == 0x100_0000_0000_0000_0000_0000_0000_0000,
        pow256(16) == 0x1_0000_0000_0000_0000_0000_0000_0000_0000,
{
    reveal_with_fuel(pow256, 17);
}

/// Every value of each signed type decodes from its canonical encoding (its
/// two's-complement bytes at the type's width, trimmed of leading zero bytes)
/// to itself, consuming exactly that encoding, whatever follows it. For
/// `isize` the width is that of the machine's `usize`.
pub proof fn lemma_signed_roundtrip(v: int, rest: Seq<u8>)
    ensures
        i8::MIN <= v <= i8::MAX ==> <i8 as RlpDecodable>::spec_rlp_decode(encode_sint(v, 1) + rest)
            == (Ok::<int, Error>(v), encode_sint(v, 1).len()),
        i16::MIN <= v <= i16::MAX ==> <i16 as RlpDecodable>::spec_rlp_decode(encode_sint(v, 2) + rest)
            == (Ok::<int, Error>(v), encode_sint(v, 2).len()),
        i32::MIN <= v <= i32::MAX ==> <i32 as RlpDecodable>::spec_rlp_decode(encode_sint(v, 4) + rest)
            == (Ok::<int, Error>(v), encode_sint(v, 4).len()),
        i64::MIN <= v <= i64::MAX ==> <i64 as RlpDecodable>::spec_rlp_decode(encode_sint(v, 8) + rest)
            == (Ok::<int, Error>(v), encode_sint(v, 8).len()),
        i128::MIN <= v <= i128::MAX ==> <i128 as RlpDecodable>::spec_rlp_decode(
            encode_sint(v, 16) + rest,
        ) == (Ok::<int, Error>(v), encode_sint(v, 16).len()),
        isize::MIN <= v <= isize::MAX ==> <isize as RlpDecodable>::spec_rlp_decode(
            encode_sint(v, (usize::BITS / 8) as nat) + rest,
        ) == (Ok::<int, Error>(v), encode_sint(v, (usize::BITS / 8) as nat).len()),
{
    lemma_pow256_values();
    if i8::MIN <= v <= i8::MAX {
        lemma_decode_sint_of_encoding(v, 1, rest);
    }
    if i16::MIN <= v <= i16::MAX {
        lemma_decode_sint_of_encoding(v, 2, rest);
    }
    if i32::MIN <= v <= i32::MAX {
        lemma_decode_sint_of_encoding(v, 4, rest);
    }
    if i64::MIN <= v <= i64::MAX {
        lemma_decode_sint_of_encoding(v, 8, rest);
    }
    if i128::MIN <= v <= i128::MAX {
        lemma_decode_sint_of_encoding(v, 16, rest);
    }
    if isize::MIN <= v <= isize::MAX {
        if usize::BITS == 64 {
            assert(isize::MIN == i64::MIN && isize::MAX == i64::MAX);
            lemma_decode_sint_of_encoding(v, 8, rest);
        } else {
            assert(usize::BITS == 32);
            assert(isize::MIN == i32::MIN && isize::MAX == i32::MAX);
            lemma_decode_sint_of_encoding(v, 4, rest);
        }
    }
}

/// An unsigned value that does not fit in `width` bytes is refused with
/// `Overflow` when decoded from its canonical encoding.
proof fn lemma_decode_uint_overflow(v: nat, width: nat, rest: Seq<u8>)
    requires
        pow256(width) <= v < pow256(32),
    ensures
        spec_decode_uint(encode_uint(v) + rest, width).0 == Err::<nat, Error>(Error::Overflow),
{
    lemma_be_trimmed_len(v, 32);
    lemma_be_trimmed_value(v);
    lemma_pow256_8();
    lemma_decode_string_of_encoding(be_trimmed(v), rest);
    lemma_be_nat_bound(be_trimmed(v));
    if be_trimmed(v).len() <= width {
        lemma_pow256_monotonic(be_trimmed(v).len(), width);
    }
}

proof fn lemma_pow256_monotonic(a: nat, b: nat)
    requires
        a <= b,
    ensures
        pow256(a) <= pow256(b),
    decreases b,
{
    if a < b {
        lemma_pow256_monotonic(a, (b - 1) as nat);
    }
}

/// Each unsigned type decodes the canonical encoding of every value it can
/// hold to that value, consuming exactly the encoding, whatever follows it;
/// the canonical encoding of a larger value is refused with `Overflow`. For
/// `usize` the bound is the machine's `usize::MAX`.
pub proof fn lemma_unsigned_roundtrip(v: nat, rest: Seq<u8>)
    ensures
        v <= u8::MAX ==> <u8 as RlpDecodable>::spec_rlp_decode(encode_uint(v) + rest) == (
            Ok::<nat, Error>(v),
            encode_uint(v).len(),
        ),
        v <= u16::MAX ==> <u16 as RlpDecodable>::spec_rlp_decode(encode_uint(v) + rest) == (
            Ok::<nat, Error>(v),
            encode_uint(v).len(),
        ),
        v <= u32::MAX ==> <u32 as RlpDecodable>::spec_rlp_decode(encode_uint(v) + rest) == (
            Ok::<nat, Error>(v),
            encode_uint(v).len(),
        ),
        v <= u64::MAX ==> <u64 as RlpDecodable>::spec_rlp_decode(encode_uint(v) + rest) == (
            Ok::<nat, Error>(v),
            encode_uint(v).len(),
        ),
        v <= u128::MAX ==> <u128 as RlpDecodable>::spec_rlp_decode(encode_uint(v) + rest) == (
            Ok::<nat, Error>(v),
            encode_uint(v).len(),
        ),
        v <= usize::MAX ==> <usize as RlpDecodable>::spec_rlp_decode(encode_uint(v) + rest) == (
            Ok::<nat, Error>(v),
            encode_uint(v).len(),
        ),
        u8::MAX < v < pow256(32) ==> <u8 as RlpDecodable>::spec_rlp_decode(encode_uint(v) + rest).0
            == Err::<nat, Error>(Error::Overflow),
        u16::MAX < v < pow256(32) ==> <u16 as RlpDecodable>::spec_rlp_decode(encode_uint(v) + rest).0
            == Err::<nat, Error>(Error::Overflow),
        u32::MAX < v < pow256(32) ==> <u32 as RlpDecodable>::spec_rlp_decode(encode_uint(v) + rest).0
            == Err::<nat, Error>(Error::Overflow),
        u64::MAX < v < pow256(32) ==> <u64 as RlpDecodable>::spec_rlp_decode(encode_uint(v) + rest).0
            == Err::<nat, Error>(Error::Overflow),
        u128::MAX < v < pow256(32) ==> <u128 as RlpDecodable>::spec_rlp_decode(
            encode_uint(v) + rest,
        ).0 == Err::<nat, Error>(Error::Overflow),
        usize::MAX < v < pow256(32) ==> <usize as RlpDecodable>::spec_rlp_decode(
            encode_uint(v) + rest,
        ).0 == Err::<nat, Error>(Error::Overflow),
{
    lemma_pow256_values();
    let w: nat = if usize::BITS == 64 {
        8
    } else {
        4
    };
    assert(usize::MAX == pow256(w) - 1);
    if v <= u128::MAX {
        if v <= u8::MAX {
            lemma_decode_uint_of_encoding(v, 1, rest);
        }
        if v <= u16::MAX {
            lemma_decode_uint_of_encoding(v, 2, rest);
        }
        if v <= u32::MAX {
            lemma_decode_uint_of_encoding(v, 4, rest);
        }
        if v <= u64::MAX {
            lemma_decode_uint_of_encoding(v, 8, rest);
        }
        lemma_decode_uint_of_encoding(v, 16, rest);
        if v <= usize::MAX {
            lemma_decode_uint_of_encoding(v, w, rest);
        }
    }
    if v < pow256(32) {
        if v > u8::MAX {
            lemma_decode_uint_overflow(v, 1, rest);
        }
        if v > u16::MAX {
            lemma_decode_uint_overflow(v, 2, rest);
        }
        if v > u32::MAX {
            lemma_decode_uint_overflow(v, 4, rest);
        }
        if v > u64::MAX {
            lemma_decode_uint_overflow(v, 8, rest);
        }
        if v > u128::MAX {
            lemma_decode_uint_overflow(v, 16, rest);
        }
        if v > usize::MAX {
            lemma_decode_uint_overflow(v, w, rest);
        }
    }
}

/// An address decodes from the canonical encoding of its octets to exactly
/// those octets, in order, consuming the encoding, whatever follows it; a
/// string of any other length is refused with `UnexpectedLength`.
pub proof fn lemma_ip_roundtrip(o: Seq<u8>, rest: Seq<u8>)
    requires
        o.len() <= usize::MAX,
    ensures
        o.len() == 4 ==> <Ipv4Addr as RlpDecodable>::spec_rlp_decode(encode_bytes(o) + rest) == (
            Ok::<Seq<u8>, Error>(o),
            encode_bytes(o).len(),
        ),
        o.len() != 4 ==> <Ipv4Addr as RlpDecodable>::spec_rlp_decode(encode_bytes(o) + rest).0
            == Err::<Seq<u8>, Error>(Error::UnexpectedLength),
        o.len() == 16 ==> <Ipv6Addr as RlpDecodable>::spec_rlp_decode(encode_bytes(o) + rest) == (
            Ok::<Seq<u8>, Error>(o),
            encode_bytes(o).len(),
        ),
        o.len() != 16 ==> <Ipv6Addr as RlpDecodable>::spec_rlp_decode(encode_bytes(o) + rest).0
            == Err::<Seq<u8>, Error>(Error::UnexpectedLength),
        o.len() == 4 || o.len() == 16 ==> <IpAddr as RlpDecodable>::spec_rlp_decode(
            encode_bytes(o) + rest,
        ) == (Ok::<Seq<u8>, Error>(o), encode_bytes(o).len()),
        o.len() != 4 && o.len() != 16 ==> <IpAddr as RlpDecodable>::spec_rlp_decode(
            encode_bytes(o) + rest,
        ).0 == Err::<Seq<u8>, Error>(Error::UnexpectedLength),
{
    lemma_decode_string_of_encoding(o, rest);
}

/// A byte string decodes, as `Bytes`, `BytesMut` or a `String`'s UTF-8, from
/// its canonical encoding to itself, whatever follows it.
pub proof fn lemma_byte_string_roundtrip(p: Seq<u8>, chars: Seq<char>, rest: Seq<u8>)
    requires
        p.len() <= usize::MAX,
        encode_utf8(chars).len() <= usize::MAX,
    ensures
        <Bytes as RlpDecodable>::spec_rlp_decode(encode_bytes(p) + rest) == (
            Ok::<Seq<u8>, Error>(p),
            encode_bytes(p).len(),
        ),
        <BytesMut as RlpDecodable>::spec_rlp_decode(encode_bytes(p) + rest) == (
            Ok::<Seq<u8>, Error>(p),
            encode_bytes(p).len(),
        ),
        <String as RlpDecodable>::spec_rlp_decode(encode_bytes(encode_utf8(chars)) + rest) == (
            Ok::<Seq<char>, Error>(chars),
            encode_bytes(encode_utf8(chars)).len(),
        ),
{
    lemma_decode_string_of_encoding(p, rest);
    lemma_decode_text_of_encoding(chars, rest);
}

/// A fixed number `N` of bytes, as an array or as an `ArrayVec` (whose
/// capacity is at most `u32::MAX`), decodes from the canonical encoding of any
/// `N` bytes to exactly those bytes, consuming the encoding, whatever follows
/// it; a string of another length is refused with `UnexpectedLength`.
pub proof fn lemma_fixed_bytes_roundtrip<const N: usize>(p: Seq<u8>, rest: Seq<u8>)
    requires
        p.len() <= usize::MAX,
    ensures
        p.len() == N ==> <[u8; N] as RlpDecodable>::spec_rlp_decode(encode_bytes(p) + rest) == (
            Ok::<Seq<u8>, Error>(p),
            encode_bytes(p).len(),
        ),
        p.len() != N ==> <[u8; N] as RlpDecodable>::spec_rlp_decode(encode_bytes(p) + rest).0
            == Err::<Seq<u8>, Error>(Error::UnexpectedLength),
        N <= u32::MAX && p.len() == N ==> <ByteArrayVec<N> as RlpDecodable>::spec_rlp_decode(
            encode_bytes(p) + rest,
        ) == (Ok::<Seq<u8>, Error>(p), encode_bytes(p).len()),
        N <= u32::MAX && p.len() != N ==> <ByteArrayVec<N> as RlpDecodable>::spec_rlp_decode(
            encode_bytes(p) + rest,
        ).0 == Err::<Seq<u8>, Error>(Error::UnexpectedLength),
{
    lemma_decode_string_of_encoding(p, rest);
}

} // verus!
