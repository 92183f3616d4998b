# alloy_rlp (verified decoder)

Decoding of Recursive Length Prefix (RLP) data, written in Verus. Each
decoding function is stated over a model of the input: what it returns (or
which error) and how many bytes it consumes. The bytes in an
`arrayvec::ArrayVec` are stated through `ByteArrayVec`, which holds the vector
together with its contents; `decode_arrayvec` states its result as the vector
of such a value.

- `src/header.rs` — item headers, payload extraction, left padding of integers.
- `src/decode.rs` — the `RlpDecodable` trait and its implementations.
- `src/decoder.rs` — `Decoder`, a cursor over a list or string payload.
- `src/net.rs` — IP addresses held as octets.
- `src/be.rs` — big-endian values of byte strings.
- `src/laws.rs` — canonical encoding and the properties of decoding over it.
- `src/foreign.rs` — the calls into `bytes`, `arrayvec` and `core`, with their contracts.
- `app/` — conversions to `std::net` types and printing.
