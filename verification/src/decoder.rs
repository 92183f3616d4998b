use vstd::prelude::*;
use crate::decode::RlpDecodable;
use crate::error::{Error, Result};
use crate::header::{spec_decode_bytes, spec_decode_str, Header};

verus! {

/// An active RLP decoder, with a specific slice of a payload.
#[derive(Default, Debug)]
pub struct Decoder<'de> {
    /// The part of the payload not yet decoded.
    pub payload_view: &'de [u8],
}

/// What [`Decoder::rlp_decode_raw`] gives for `s`: it reads a string item, a
/// UTF-8 string item, and two more string items, and keeps the payload of the
/// last; the error of the first step that fails otherwise. The second part is
/// the number of bytes consumed.
pub open spec fn spec_decode_raw(s: Seq<u8>) -> (Result<Seq<u8>>, nat) {
    let (r1, n1) = spec_decode_bytes(s, false);
    match r1 {
        Err(e) => (Err(e), n1),
        Ok(_) => {
            let s1 = s.skip(n1 as int);
            let (r2, n2) = spec_decode_str(s1);
            match r2 {
                Err(e) => (Err(e), n1 + n2),
                Ok(_) => {
                    let s2 = s1.skip(n2 as int);
                    let (r3, n3) = spec_decode_bytes(s2, false);
                    match r3 {
                        Err(e) => (Err(e), n1 + n2 + n3),
                        Ok(_) => {
                            let s3 = s2.skip(n3 as int);
                            let (r4, n4) = spec_decode_bytes(s3, false);
                            (r4, n1 + n2 + n3 + n4)
                        },
                    }
                },
            }
        },
    }
}

/// The text of the second item of raw decoding, when the first two steps
/// succeed.
pub open spec fn spec_raw_text(s: Seq<u8>) -> Option<Seq<char>> {
    let (r1, n1) = spec_decode_bytes(s, false);
    match r1 {
        Err(_) => None,
        Ok(_) => match spec_decode_str(s.skip(n1 as int)).0 {
            Ok(t) => Some(t),
            Err(_) => None,
        },
    }
}

/// The payload of the third item of raw decoding, when the first three steps
/// succeed.
pub open spec fn spec_raw_third(s: Seq<u8>) -> Option<Seq<u8>> {
    let (r1, n1) = spec_decode_bytes(s, false);
    let s1 = s.skip(n1 as int);
    let (r2, n2) = spec_decode_str(s1);
    match (r1, r2) {
        (Ok(_), Ok(_)) => match spec_decode_bytes(s1.skip(n2 as int), false).0 {
            Ok(p) => Some(p),
            Err(_) => None,
        },
        _ => None,
    }
}

/// What the steps of raw decoding gave: the text of the second item and the
/// payload of the third, where those steps succeeded, and the final result.
pub struct RawTrace<'de> {
    pub text: Option<&'de str>,
    pub third: Option<&'de [u8]>,
    pub result: Result<&'de [u8]>,
}

impl<'de> Decoder<'de> {
    /// Instantiate an RLP decoder with a payload slice: the payload of the
    /// item (a list when `is_list`, a string otherwise) at the start of
    /// `payload`.
    ///
    /// # Errors
    ///
    /// Those of [`Header::decode_bytes`].
    pub fn new(payload: &'de [u8], is_list: bool) -> (r: Result<Self>)
        ensures
            match spec_decode_bytes(payload@, is_list).0 {
                Ok(p) => (r matches Ok(d) && d.payload_view@ == p),
                Err(e) => r == Err::<Self, Error>(e),
            },
    {
        let mut payload = payload;
        let payload_view = Header::decode_bytes(&mut payload, is_list)?;
        Ok(Self { payload_view })
    }

    /// Decode the next item from the buffer: `None` when the payload is used
    /// up, the next item otherwise.
    pub fn get_next<T: RlpDecodable>(&mut self) -> (r: Result<Option<T>>)
        ensures
            old(self).payload_view@.len() == 0 ==> r == Ok::<Option<T>, Error>(None)
                && final(self).payload_view@ == old(self).payload_view@,
            old(self).payload_view@.len() > 0 ==> ({
                let (m, n) = T::spec_rlp_decode(old(self).payload_view@);
                &&& n <= old(self).payload_view@.len()
                &&& final(self).payload_view@ == old(self).payload_view@.skip(n as int)
                &&& match m {
                    Ok(v) => (r matches Ok(Some(x)) && x.model() == v),
                    Err(e) => r == Err::<Option<T>, Error>(e),
                }
            }),
    {
        if self.payload_view.is_empty() {
            Ok(None)
        } else {
            match T::rlp_decode(&mut self.payload_view) {
                Ok(v) => Ok(Some(v)),
                Err(e) => Err(e),
            }
        }
    }

    /// Reads four items from the payload (a string, a UTF-8 string, and two
    /// strings) and returns the payload of the last.
    ///
    /// # Errors
    ///
    /// That of the first item that fails to decode.
    pub fn rlp_decode_raw(&mut self) -> (r: Result<&'de [u8]>)
        ensures
            ({
                let (m, n) = spec_decode_raw(old(self).payload_view@);
                &&& n <= old(self).payload_view@.len()
                &&& final(self).payload_view@ == old(self).payload_view@.skip(n as int)
                &&& match m {
                    Ok(p) => (r matches Ok(q) && q@ == p),
                    Err(e) => r == Err::<&[u8], Error>(e),
                }
            }),
    {
        let trace = self.rlp_decode_raw_traced();
        trace.result
    }

    /// Raw decoding as [`Decoder::rlp_decode_raw`] does it, also giving back
    /// the text of the second item and the payload of the third when the
    /// steps up to them succeed.
    pub fn rlp_decode_raw_traced(&mut self) -> (t: RawTrace<'de>)
        ensures
            ({
                let s = old(self).payload_view@;
                let (m, n) = spec_decode_raw(s);
                &&& n <= s.len()
                &&& final(self).payload_view@ == s.skip(n as int)
                &&& match m {
                    Ok(p) => (t.result matches Ok(q) && q@ == p),
                    Err(e) => t.result == Err::<&[u8], Error>(e),
                }
                &&& match spec_raw_text(s) {
                    Some(x) => (t.text matches Some(q) && q@ == x),
                    None => t.text is None,
                }
                &&& match spec_raw_third(s) {
                    Some(x) => (t.third matches Some(q) && q@ == x),
                    None => t.third is None,
                }
            }),
    {
        let ghost s = self.payload_view@;
        let mut trace = RawTrace { text: None, third: None, result: Err(Error::InputTooShort) };
        match Header::decode_bytes(&mut self.payload_view, false) {
            Ok(_) => {},
            Err(e) => {
                trace.result = Err(e);
                return trace;
            },
        }
        let ghost s1 = self.payload_view@;
        match Header::decode_str(&mut self.payload_view) {
            Ok(text) => {
                trace.text = Some(text);
            },
            Err(e) => {
                trace.result = Err(e);
                return trace;
            },
        }
        let ghost s2 = self.payload_view@;
        match Header::decode_bytes(&mut self.payload_view, false) {
            Ok(third) => {
                trace.third = Some(third);
            },
            Err(e) => {
                trace.result = Err(e);
                return trace;
            },
        }
        let ghost s3 = self.payload_view@;
        proof {
            let n1 = spec_decode_bytes(s, false).1;
            let n2 = spec_decode_str(s1).1;
            let n3 = spec_decode_bytes(s2, false).1;
            assert(s3 =~= s.skip((n1 + n2 + n3) as int));
        }
        trace.result = Header::decode_bytes(&mut self.payload_view, false);
        trace
    }

    /// Decodes a string slice from the given buffer, advancing it.
    ///
    /// # Errors
    ///
    /// Returns an error if the buffer is too short or the header is invalid.
    pub fn decode_str<'a>(buf: &mut &'a [u8]) -> (r: Result<&'a str>)
        ensures
            ({
                let (m, n) = spec_decode_str(old(buf)@);
                &&& n <= old(buf)@.len()
                &&& final(buf)@ == old(buf)@.skip(n as int)
                &&& match m {
                    Ok(t) => (r matches Ok(q) && q@ == t),
                    Err(e) => r == Err::<&str, Error>(e),
                }
            }),
    {
        Header::decode_str(buf)
    }
}

} // verus!
