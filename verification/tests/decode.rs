use alloy_rlp::{Error, IpAddr, Ipv4Addr, Ipv6Addr, RlpDecodable, Result};
use bytes::Bytes;
use std::fmt::Debug;

fn hex(s: &str) -> Vec<u8> {
    assert!(s.len() % 2 == 0);
    (0..s.len())
        .step_by(2)
        .map(|i| u8::from_str_radix(&s[i..i + 2], 16).unwrap())
        .collect()
}

fn check_decode<T, I>(fixtures: I)
where
    T: RlpDecodable + PartialEq + Debug,
    I: IntoIterator<Item = (Result<T>, Vec<u8>)>,
{
    for (expected, data) in fixtures {
        let mut input: &[u8] = &data;
        assert_eq!(T::rlp_decode(&mut input), expected, "input: {:02x?}", data);
        if expected.is_ok() {
            assert_eq!(input, &[] as &[u8]);
        }
    }
}

#[test]
fn rlp_strings() {
    check_decode::<Bytes, _>([
        (Ok(Bytes::from(hex("00"))), hex("00")),
        (
            Ok(Bytes::from(hex("6f62636465666768696a6b6c6d"))),
            hex("8D6F62636465666768696A6B6C6D"),
        ),
        (Err(Error::UnexpectedList), hex("C0")),
    ])
}

#[test]
fn rlp_fixed_length() {
    let expected: [u8; 13] = hex("6f62636465666768696a6b6c6d").try_into().unwrap();
    check_decode([
        (Ok(expected), hex("8D6F62636465666768696A6B6C6D")),
        (Err(Error::UnexpectedLength), hex("8C6F62636465666768696A6B6C")),
        (Err(Error::UnexpectedLength), hex("8E6F62636465666768696A6B6C6D6E")),
    ])
}

#[test]
fn rlp_u64() {
    check_decode([
        (Ok(9_u64), hex("09")),
        (Ok(0_u64), hex("80")),
        (Ok(0x0505_u64), hex("820505")),
        (Ok(0xCE05050505_u64), hex("85CE05050505")),
        (Err(Error::Overflow), hex("8AFFFFFFFFFFFFFFFFFF7C")),
        (Err(Error::InputTooShort), hex("8BFFFFFFFFFFFFFFFFFF7C")),
        (Err(Error::UnexpectedList), hex("C0")),
        (Err(Error::LeadingZero), hex("00")),
        (Err(Error::NonCanonicalSingleByte), hex("8105")),
        (Err(Error::LeadingZero), hex("8200F4")),
        (Err(Error::NonCanonicalSize), hex("B8020004")),
        (
            Err(Error::Overflow),
            hex("A101000000000000000000000000000000000000008B000000000000000000000000"),
        ),
    ])
}

#[test]
fn rlp_vectors() {
    check_decode::<Vec<u64>, _>([
        (Ok(vec![]), hex("C0")),
        (Ok(vec![0xBBCCB5_u64, 0xFFC0B5_u64]), hex("C883BBCCB583FFC0B5")),
    ])
}

#[test]
fn rlp_ip() {
    let localhost4 = Ipv4Addr::new(127, 0, 0, 1);
    let localhost6 = Ipv6Addr {
        octets: [0, 0, 0, 0, 0, 0, 0, 0, 0, 0, 0xff, 0xff, 127, 0, 0, 1],
    };
    let expected4 = hex("847F000001");
    let expected6 = hex("9000000000000000000000ffff7f000001");
    check_decode::<Ipv4Addr, _>([(Ok(localhost4), expected4.clone())]);
    check_decode::<Ipv6Addr, _>([(Ok(localhost6), expected6.clone())]);
    check_decode::<IpAddr, _>([
        (Ok(IpAddr::V4(localhost4)), expected4),
        (Ok(IpAddr::V6(localhost6)), expected6),
    ]);
}

#[test]
fn malformed_rlp() {
    check_decode::<Bytes, _>([
        (Err(Error::InputTooShort), hex("C1")),
        (Err(Error::InputTooShort), hex("D7")),
    ]);
    check_decode::<[u8; 5], _>([
        (Err(Error::InputTooShort), hex("C1")),
        (Err(Error::InputTooShort), hex("D7")),
    ]);
    check_decode::<IpAddr, _>([
        (Err(Error::InputTooShort), hex("C1")),
        (Err(Error::InputTooShort), hex("D7")),
    ]);
    check_decode::<Vec<u8>, _>([
        (Err(Error::InputTooShort), hex("C1")),
        (Err(Error::InputTooShort), hex("D7")),
    ]);
    check_decode::<String, _>([
        (Err(Error::InputTooShort), hex("C1")),
        (Err(Error::InputTooShort), hex("D7")),
    ]);
    check_decode::<String, _>([
        (Err(Error::InputTooShort), hex("C1")),
        (Err(Error::InputTooShort), hex("D7")),
    ]);
    check_decode::<u8, _>([(Err(Error::InputTooShort), hex("82"))]);
    check_decode::<u64, _>([(Err(Error::InputTooShort), hex("82"))]);
}
