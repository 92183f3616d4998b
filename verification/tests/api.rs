use alloy_rlp::{decode_arrayvec, ByteArrayVec};
use alloy_rlp::{slice_to_array, static_left_pad, Decoder, Error, Header, RlpDecodable, RlpLength};
use bytes::{Bytes, BytesMut};
use std::borrow::Cow;
use std::marker::{PhantomData, PhantomPinned};
use std::rc::Rc;
use std::sync::Arc;

fn bytes_of(s: &str) -> Vec<u8> {
    (0..s.len())
        .step_by(2)
        .map(|i| u8::from_str_radix(&s[i..i + 2], 16).unwrap())
        .collect()
}

fn decode_all<T: RlpDecodable>(data: &[u8]) -> (alloy_rlp::Result<T>, usize) {
    let mut input = data;
    let r = T::rlp_decode(&mut input);
    (r, data.len() - input.len())
}

#[test]
fn header_short_and_long_forms() {
    let data = bytes_of("83636174");
    let mut input: &[u8] = &data;
    assert_eq!(
        Header::decode(&mut input),
        Ok(Header { list: false, payload_length: 3 })
    );
    assert_eq!(input, &data[1..]);

    let data = bytes_of("7f");
    let mut input: &[u8] = &data;
    assert_eq!(
        Header::decode(&mut input),
        Ok(Header { list: false, payload_length: 1 })
    );
    assert_eq!(input, &data[..]);

    let mut long = vec![0xB8, 56];
    long.extend(std::iter::repeat(7u8).take(56));
    let mut input: &[u8] = &long;
    assert_eq!(
        Header::decode(&mut input),
        Ok(Header { list: false, payload_length: 56 })
    );
    assert_eq!(input.len(), 56);

    let mut long_list = vec![0xF8, 60];
    long_list.extend(std::iter::repeat(1u8).take(60));
    let mut input: &[u8] = &long_list;
    assert_eq!(
        Header::decode(&mut input),
        Ok(Header { list: true, payload_length: 60 })
    );
}

#[test]
fn header_errors_and_consumption() {
    let mut input: &[u8] = &[];
    assert_eq!(Header::decode(&mut input), Err(Error::InputTooShort));

    let data = bytes_of("B90038");
    let mut input: &[u8] = &data;
    assert_eq!(Header::decode(&mut input), Err(Error::LeadingZero));
    assert_eq!(input.len(), 0);

    let data = bytes_of("B9");
    let mut input: &[u8] = &data;
    assert_eq!(Header::decode(&mut input), Err(Error::InputTooShort));
    assert_eq!(input.len(), 0);

    let data = bytes_of("81");
    let mut input: &[u8] = &data;
    assert_eq!(Header::decode(&mut input), Err(Error::InputTooShort));
}

#[test]
fn decode_bytes_kinds() {
    let data = bytes_of("C3010203");
    let mut input: &[u8] = &data;
    assert_eq!(Header::decode_bytes(&mut input, false), Err(Error::UnexpectedList));
    let mut input: &[u8] = &data;
    assert_eq!(Header::decode_bytes(&mut input, true), Ok(&data[1..]));
    let data = bytes_of("83010203");
    let mut input: &[u8] = &data;
    assert_eq!(Header::decode_bytes(&mut input, true), Err(Error::UnexpectedString));
}

#[test]
fn decode_str_text_and_invalid() {
    let data = bytes_of("83636174");
    let mut input: &[u8] = &data;
    assert_eq!(Header::decode_str(&mut input), Ok("cat"));
    let data = bytes_of("82C328");
    let mut input: &[u8] = &data;
    assert_eq!(Decoder::decode_str(&mut input), Err(Error::Custom("invalid string")));
    let data = bytes_of("83646F67");
    let mut input: &[u8] = &data;
    assert_eq!(Decoder::decode_str(&mut input), Ok("dog"));
}

#[test]
fn decoder_new_and_get_next() {
    let data = bytes_of("C88363617483646F67");
    let mut decoder = Decoder::new(&data, true).unwrap();
    assert_eq!(decoder.payload_view, &data[1..]);
    assert_eq!(decoder.get_next::<String>(), Ok(Some("cat".to_string())));
    assert_eq!(decoder.get_next::<String>(), Ok(Some("dog".to_string())));
    assert_eq!(decoder.get_next::<String>(), Ok(None));
    assert_eq!(decoder.get_next::<u8>(), Ok(None));

    assert_eq!(Decoder::new(&data, false).map(|d| d.payload_view), Err(Error::UnexpectedList));

    let data = bytes_of("887465737420737472");
    let mut decoder = Decoder::new(&data, false).unwrap();
    assert_eq!(decoder.payload_view, b"test str");
    assert_eq!(decoder.get_next::<u8>(), Ok(Some(0x74)));
    assert_eq!(decoder.payload_view, b"est str");

    let data = bytes_of("C28180");
    let mut decoder = Decoder::new(&data, true).unwrap();
    assert_eq!(decoder.get_next::<u8>(), Ok(Some(0x80)));
    let data = bytes_of("C281");
    assert_eq!(Decoder::new(&data, true).map(|d| d.payload_view), Err(Error::InputTooShort));
}

#[test]
fn decoder_debug_and_default() {
    let decoder = Decoder { payload_view: &[1, 2] };
    assert_eq!(format!("{:?}", decoder), "Decoder { payload_view: [1, 2] }");
    let empty = Decoder::default();
    assert!(empty.payload_view.is_empty());
}

#[test]
fn decoder_rlp_decode_raw() {
    let rlp = bytes_of("cf846361747383646f6785686f727365");
    let mut decoder = Decoder::new(&rlp, true).unwrap();
    assert_eq!(decoder.rlp_decode_raw(), Err(Error::InputTooShort));
    assert!(decoder.payload_view.is_empty());

    let rlp = bytes_of("d3846361747383646f6785686f72736583626972");
    let mut decoder = Decoder::new(&rlp, true).unwrap();
    assert_eq!(decoder.rlp_decode_raw(), Ok(&b"bir"[..]));
    assert!(decoder.payload_view.is_empty());

    let rlp = bytes_of("c8846361747382c328");
    let mut decoder = Decoder::new(&rlp, true).unwrap();
    assert_eq!(decoder.rlp_decode_raw(), Err(Error::Custom("invalid string")));
    assert!(decoder.payload_view.is_empty());
}

#[test]
fn bool_values() {
    assert_eq!(decode_all::<bool>(&bytes_of("80")), (Ok(false), 1));
    assert_eq!(decode_all::<bool>(&bytes_of("01")), (Ok(true), 1));
    assert_eq!(
        decode_all::<bool>(&bytes_of("02")),
        (Err(Error::Custom("invalid bool value, must be 0 or 1")), 1)
    );
    assert_eq!(decode_all::<bool>(&bytes_of("8201")), (Err(Error::InputTooShort), 1));
}

#[test]
fn unsigned_widths() {
    assert_eq!(decode_all::<u8>(&bytes_of("81FF")), (Ok(0xFF), 2));
    assert_eq!(decode_all::<u8>(&bytes_of("820100")), (Err(Error::Overflow), 3));
    assert_eq!(decode_all::<u16>(&bytes_of("820102")), (Ok(0x0102), 3));
    assert_eq!(decode_all::<u32>(&bytes_of("8401020304")), (Ok(0x01020304), 5));
    assert_eq!(
        decode_all::<u128>(&bytes_of("900102030405060708090A0B0C0D0E0F10")),
        (Ok(0x0102030405060708090A0B0C0D0E0F10), 17)
    );
    assert_eq!(decode_all::<usize>(&bytes_of("820505")), (Ok(0x0505), 3));
    assert_eq!(decode_all::<usize>(&bytes_of("80")), (Ok(0), 1));
}

#[test]
fn signed_widths() {
    assert_eq!(decode_all::<i8>(&bytes_of("81FF")), (Ok(-1), 2));
    assert_eq!(decode_all::<i8>(&bytes_of("7F")), (Ok(127), 1));
    assert_eq!(decode_all::<i16>(&bytes_of("81FF")), (Ok(255), 2));
    assert_eq!(decode_all::<i16>(&bytes_of("828000")), (Ok(-32768), 3));
    assert_eq!(decode_all::<i32>(&bytes_of("84FFFFFFFE")), (Ok(-2), 5));
    assert_eq!(decode_all::<i64>(&bytes_of("88FFFFFFFFFFFFFFFF")), (Ok(-1), 9));
    assert_eq!(decode_all::<i64>(&bytes_of("8180")), (Ok(128), 2));
    assert_eq!(
        decode_all::<i128>(&bytes_of("9080000000000000000000000000000000")),
        (Ok(i128::MIN), 17)
    );
    assert_eq!(decode_all::<isize>(&bytes_of("820505")), (Ok(0x0505), 3));
    assert_eq!(decode_all::<i32>(&bytes_of("850102030405")), (Err(Error::Overflow), 6));
}

#[test]
fn byte_buffers() {
    let (r, n) = decode_all::<BytesMut>(&bytes_of("83010203"));
    assert_eq!(r, Ok(BytesMut::from(&[1u8, 2, 3][..])));
    assert_eq!(n, 4);
    let (r, n) = decode_all::<Bytes>(&bytes_of("80"));
    assert_eq!(r, Ok(Bytes::new()));
    assert_eq!(n, 1);
    assert_eq!(decode_all::<Bytes>(&bytes_of("8180")), (Ok(Bytes::from(vec![0x80u8])), 2));
}

#[test]
fn strings_and_lists() {
    assert_eq!(
        decode_all::<Vec<String>>(&bytes_of("C88363617483646F67")),
        (Ok(vec!["cat".to_string(), "dog".to_string()]), 9)
    );
    assert_eq!(decode_all::<String>(&bytes_of("80")), (Ok(String::new()), 1));
    assert_eq!(
        decode_all::<String>(&bytes_of("81FF")),
        (Err(Error::Custom("invalid string")), 2)
    );
    assert_eq!(
        decode_all::<Vec<Vec<u8>>>(&bytes_of("C4C101C180")),
        (Ok(vec![vec![1u8], vec![0u8]]), 5)
    );
    assert_eq!(
        decode_all::<Vec<u64>>(&bytes_of("C3820001")),
        (Err(Error::LeadingZero), 4)
    );
}

#[test]
fn list_of_items_that_consume_nothing() {
    assert_eq!(decode_all::<Vec<PhantomData<u8>>>(&bytes_of("C0")), (Ok(vec![]), 1));
    assert_eq!(
        decode_all::<Vec<PhantomData<u8>>>(&bytes_of("C101")),
        (Err(Error::Custom("list item consumed no input")), 2)
    );
}

#[test]
fn wrappers_and_markers() {
    assert_eq!(decode_all::<Box<u16>>(&bytes_of("820102")), (Ok(Box::new(0x0102)), 3));
    assert_eq!(decode_all::<Rc<u8>>(&bytes_of("05")), (Ok(Rc::new(5)), 1));
    assert_eq!(decode_all::<Arc<bool>>(&bytes_of("01")), (Ok(Arc::new(true)), 1));
    assert_eq!(decode_all::<Box<u8>>(&bytes_of("C0")), (Err(Error::UnexpectedList), 1));
    assert_eq!(decode_all::<PhantomData<u64>>(&bytes_of("05")), (Ok(PhantomData), 0));
    let (r, n) = decode_all::<PhantomPinned>(&bytes_of("05"));
    assert!(r.is_ok());
    assert_eq!(n, 0);
    let (r, n) = decode_all::<Cow<'_, [u8]>>(&bytes_of("C20102"));
    assert_eq!(n, 3);
    match r {
        Ok(Cow::Owned(v)) => assert_eq!(v, vec![1u8, 2]),
        other => panic!("unexpected {:?}", other),
    }
}

#[test]
fn raw_decode_is_plain_decode() {
    let data = bytes_of("820505");
    let mut input: &[u8] = &data;
    assert_eq!(u64::rlp_decode_raw(&mut input), Ok(0x0505));
    assert!(input.is_empty());
}

#[test]
fn left_pad_and_arrays() {
    assert_eq!(static_left_pad::<4>(&[1, 2]), Ok([0, 0, 1, 2]));
    assert_eq!(static_left_pad::<4>(&[]), Ok([0, 0, 0, 0]));
    assert_eq!(static_left_pad::<2>(&[1, 2, 3]), Err(Error::Overflow));
    assert_eq!(static_left_pad::<4>(&[0, 2]), Err(Error::LeadingZero));
    assert_eq!(static_left_pad::<2>(&[9, 8]), Ok([9, 8]));
    assert_eq!(slice_to_array::<3>(&[1, 2, 3]), Ok([1, 2, 3]));
    assert_eq!(slice_to_array::<3>(&[1, 2]), Err(Error::UnexpectedLength));
    assert_eq!(decode_all::<[u8; 2]>(&bytes_of("820A0B")), (Ok([0x0A, 0x0B]), 3));
    assert_eq!(Vec::<u8>::new().rlp_len_raw(), 0);
}

#[test]
fn canonical_roundtrip_and_trailing_bytes() {
    // The canonical encodings of 0, 0x7F, 0x80 and 0x0100, followed by a
    // trailing byte that decoding leaves alone.
    for (v, enc) in [(0u64, "80"), (0x7F, "7F"), (0x80, "8180"), (0x0100, "820100")] {
        let mut data = bytes_of(enc);
        let len = data.len();
        data.push(0xAA);
        let mut input: &[u8] = &data;
        assert_eq!(u64::rlp_decode(&mut input), Ok(v));
        assert_eq!(input, &[0xAA][..]);
        assert_eq!(data.len() - input.len(), len);
    }
    // A 56-byte string takes the long form.
    let mut data = vec![0xB8, 56];
    data.extend(std::iter::repeat(0x61u8).take(56));
    let (r, n) = decode_all::<Bytes>(&data);
    assert_eq!(r, Ok(Bytes::from(vec![0x61u8; 56])));
    assert_eq!(n, 58);
    // Non-canonical spellings of the same values are refused.
    assert_eq!(decode_all::<u64>(&bytes_of("817F")).0, Err(Error::NonCanonicalSingleByte));
    assert_eq!(decode_all::<u64>(&bytes_of("B80180")).0, Err(Error::NonCanonicalSize));
    assert_eq!(decode_all::<u64>(&bytes_of("83000100")).0, Err(Error::LeadingZero));
}

#[test]
fn array_vec_decoding() {
    let data = bytes_of("83010203AA");
    let mut input: &[u8] = &data;
    let v = decode_arrayvec::<3>(&mut input).unwrap();
    assert_eq!(v.as_slice(), &[1u8, 2, 3]);
    assert_eq!(v.len(), 3);
    assert_eq!(input, &[0xAA][..]);

    let mut input: &[u8] = &data;
    assert_eq!(decode_arrayvec::<4>(&mut input).map(|v| v.len()), Err(Error::UnexpectedLength));
    let mut input: &[u8] = &bytes_of("C0");
    assert_eq!(decode_arrayvec::<0>(&mut input).map(|v| v.len()), Err(Error::UnexpectedList));

    let mut input: &[u8] = &data;
    let w = ByteArrayVec::<3>::rlp_decode(&mut input).ok().unwrap().into_inner();
    assert_eq!(w.as_slice(), &[1u8, 2, 3]);
}

#[test]
fn raw_decode_trace() {
    let rlp = bytes_of("cf846361747383646f6785686f727365");
    let mut decoder = Decoder::new(&rlp, true).unwrap();
    let trace = decoder.rlp_decode_raw_traced();
    assert_eq!(trace.text, Some("dog"));
    assert_eq!(trace.third, Some(&b"horse"[..]));
    assert_eq!(trace.result, Err(Error::InputTooShort));

    let rlp = bytes_of("c8846361747382c328");
    let mut decoder = Decoder::new(&rlp, true).unwrap();
    let trace = decoder.rlp_decode_raw_traced();
    assert_eq!(trace.text, None);
    assert_eq!(trace.third, None);
    assert_eq!(trace.result, Err(Error::Custom("invalid string")));
}

#[test]
fn decoder_walks_list_like_vec() {
    let data = bytes_of("C883BBCCB583FFC0B5");
    let mut input: &[u8] = &data;
    let all = Vec::<u64>::rlp_decode(&mut input).unwrap();
    let mut decoder = Decoder::new(&data, true).unwrap();
    for item in &all {
        let before = decoder.payload_view.len();
        assert_eq!(decoder.get_next::<u64>(), Ok(Some(*item)));
        assert!(decoder.payload_view.len() < before);
    }
    assert_eq!(decoder.get_next::<u64>(), Ok(None));
}

#[test]
fn wide_and_text_roundtrips() {
    let enc = bytes_of("8FFFFFFFFFFFFFFFFFFFFFFFFFFFFFFF");
    assert_eq!(decode_all::<u128>(&enc), (Ok(u128::MAX >> 8), 16));
    assert_eq!(decode_all::<bool>(&bytes_of("01AA")), (Ok(true), 1));
    assert_eq!(decode_all::<String>(&bytes_of("82C3A9")), (Ok("é".to_string()), 3));
}
