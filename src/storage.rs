use vstd::prelude::*;

use crate::text::{chars_of, string_from};

verus! {

/// The bytes of a Snappy raw-format compression of `b`.
pub uninterp spec fn snappy_of(b: Seq<u8>) -> Seq<u8>;

/// The largest payload that the compressor accepts here (Snappy refuses
/// inputs whose worst-case output would not fit in 32 bits).
pub const MAX_PAYLOAD: u64 = 3_000_000_000;

#[verifier::external_type_specification]
#[verifier::external_body]
pub struct ExSnapError(snap::Error);

/// Relies on `snap::raw::Encoder::compress_vec`: the raw Snappy encoding of
/// the input, exactly as long as the encoder reports. It fails only when the
/// input is too large, which `requires` rules out.
#[verifier::external_body]
fn compress(input: &Vec<u8>) -> (r: Vec<u8>)
    requires
        input@.len() <= MAX_PAYLOAD,
    ensures
        r@ == snappy_of(input@),
{
    snap::raw::Encoder::new().compress_vec(input).unwrap()
}

/// Relies on `snap::raw::Decoder::decompress_vec`: Snappy is lossless, so the
/// encoding of `x` decodes to `x`.
#[verifier::external_body]
fn decompress(input: &Vec<u8>) -> (r: Result<Vec<u8>, snap::Error>)
    ensures
        forall|x: Seq<u8>|
            x.len() <= MAX_PAYLOAD && #[trigger] snappy_of(x) == input@ ==> (r is Ok && r->Ok_0@
                == x),
{
    snap::raw::Decoder::new().decompress_vec(input)
}

/// Why a stored payload could not be read back.
#[derive(Clone, Copy, Debug, PartialEq, Eq, Structural)]
pub enum StoreError {
    /// The payload is not valid Snappy data.
    Corrupt,
    /// The payload decodes to more bytes than the record's stored length.
    TooLong,
}

/// One row of the `data` table: a key, the payload's length in characters,
/// the encoding and compression tags, the last access time and the
/// compressed payload.
#[derive(Debug)]
pub struct LocalStorage {
    pub key: String,
    pub utf16_length: i32,
    pub conversion_type: i32,
    pub compression_type: i32,
    pub last_access_time: i32,
    pub value: Vec<u8>,
}

/// The byte that stands for a character: its code point's low eight bits.
/// Only ASCII characters survive this; others are truncated, as the
/// browser's legacy layout does.
pub open spec fn byte_of(c: char) -> u8 {
    (c as u32 % 256) as u8
}

/// The character that a stored byte stands for.
pub open spec fn char_of(b: u8) -> char {
    b as char
}

pub open spec fn payload(s: Seq<char>) -> Seq<u8> {
    s.map_values(|c: char| byte_of(c))
}

pub open spec fn is_ascii_text(s: Seq<char>) -> bool {
    forall|i: int| 0 <= i < s.len() ==> (#[trigger] s[i] as u32) < 128
}

/// The text that a decoded payload gives for a record of stored length
/// `raw_len`: one character per byte, padded with NUL up to `raw_len`; none
/// when the payload is longer.
pub open spec fn stored_text(decoded: Seq<u8>, raw_len: int) -> Option<Seq<char>> {
    if decoded.len() > raw_len {
        None
    } else {
        Some(decoded.map_values(|b: u8| char_of(b)) + Seq::new(
            (raw_len - decoded.len()) as nat,
            |i: int| '\0',
        ))
    }
}

/// The bytes that are compressed for a JSON string.
pub fn payload_bytes(json: &str) -> (r: Vec<u8>)
    ensures
        r@ == payload(json@),
{
    let cs: Vec<char> = chars_of(json);
    let mut out: Vec<u8> = Vec::new();
    let mut i: usize = 0;
    while i < cs.len()
        invariant
            cs@ == json@,
            i <= cs@.len(),
            out@ == payload(cs@.subrange(0, i as int)),
        decreases cs.len() - i,
    {
        out.push((cs[i] as u32 % 256) as u8);
        i = i + 1;
        proof {
            assert(out@ =~= payload(cs@.subrange(0, i as int)));
        }
    }
    proof {
        assert(cs@.subrange(0, cs@.len() as int) =~= json@);
    }
    out
}

/// The row stored under `key` for the JSON string `json`.
pub fn make_record(key: &str, json: &str) -> (r: LocalStorage)
    requires
        json@.len() <= 0x7fff_ffff,
    ensures
        r.key@ == key@,
        r.utf16_length == json@.len(),
        r.conversion_type == 1,
        r.compression_type == 1,
        r.last_access_time == 0,
        r.value@ == snappy_of(payload(json@)),
{
    let bytes: Vec<u8> = payload_bytes(json);
    let value: Vec<u8> = compress(&bytes);
    LocalStorage {
        key: key.to_string(),
        utf16_length: bytes.len() as i32,
        conversion_type: 1,
        compression_type: 1,
        last_access_time: 0,
        value,
    }
}

/// The `usage` column of the `database` table: the two payloads' lengths in
/// characters, plus ten.
pub fn usage_of(records: &[LocalStorage; 2]) -> (r: i64)
    ensures
        r == records[0].utf16_length + records[1].utf16_length + 10,
{
    records[0].utf16_length as i64 + records[1].utf16_length as i64 + 10
}

/// The text of an already decoded payload, for a record of stored length
/// `raw_len`.
pub fn payload_text(decoded: &Vec<u8>, raw_len: i32) -> (r: Result<String, StoreError>)
    ensures
        match stored_text(decoded@, raw_len as int) {
            Some(t) => r is Ok && r->Ok_0@ == t,
            None => r == Err::<String, StoreError>(StoreError::TooLong),
        },
{
    if raw_len < 0 || decoded.len() > raw_len as usize {
        return Err(StoreError::TooLong);
    }
    let mut out: Vec<char> = Vec::new();
    let mut i: usize = 0;
    while i < decoded.len()
        invariant
            i <= decoded@.len(),
            out@ == decoded@.subrange(0, i as int).map_values(|b: u8| char_of(b)),
        decreases decoded.len() - i,
    {
        out.push(decoded[i] as char);
        i = i + 1;
        proof {
            assert(out@ =~= decoded@.subrange(0, i as int).map_values(|b: u8| char_of(b)));
        }
    }
    let ghost text = out@;
    let pad: usize = raw_len as usize - decoded.len();
    let mut j: usize = 0;
    while j < pad
        invariant
            j <= pad,
            out@ == text + Seq::new(j as nat, |k: int| '\0'),
        decreases pad - j,
    {
        out.push('\0');
        j = j + 1;
        proof {
            assert(out@ =~= text + Seq::new(j as nat, |k: int| '\0'));
        }
    }
    proof {
        assert(decoded@.subrange(0, decoded@.len() as int) =~= decoded@);
        assert(out@ =~= stored_text(decoded@, raw_len as int)->Some_0);
    }
    Ok(string_from(&out))
}

/// Reads a row's payload back as text: Snappy-decodes it, then maps each
/// byte to one character. A payload that was stored by `make_record` for
/// `x` reads back as `x`'s bytes, padded up to the stored length.
pub fn decode_payload(value: &Vec<u8>, raw_len: i32) -> (r: Result<String, StoreError>)
    ensures
        forall|x: Seq<u8>|
            x.len() <= MAX_PAYLOAD && #[trigger] snappy_of(x) == value@ ==> match stored_text(
                x,
                raw_len as int,
            ) {
                Some(t) => r is Ok && r->Ok_0@ == t,
                None => r == Err::<String, StoreError>(StoreError::TooLong),
            },
{
    match decompress(value) {
        Ok(decoded) => payload_text(&decoded, raw_len),
        Err(_) => Err(StoreError::Corrupt),
    }
}

/// Reads a row back as the JSON string it was made from.
pub fn read_record(record: &LocalStorage) -> (r: Result<String, StoreError>)
    ensures
        forall|x: Seq<u8>|
            x.len() <= MAX_PAYLOAD && #[trigger] snappy_of(x) == record.value@ ==> match stored_text(
                x,
                record.utf16_length as int,
            ) {
                Some(t) => r is Ok && r->Ok_0@ == t,
                None => r == Err::<String, StoreError>(StoreError::TooLong),
            },
{
    decode_payload(&record.value, record.utf16_length)
}

/// An ASCII string stored as a record reads back unchanged.
pub proof fn lemma_ascii_round_trip(s: Seq<char>)
    requires
        is_ascii_text(s),
        s.len() <= 0x7fff_ffff,
    ensures
        stored_text(payload(s), s.len() as int) == Some(s),
{
    let t = payload(s).map_values(|b: u8| char_of(b));
    assert forall|i: int| 0 <= i < s.len() implies #[trigger] t[i] == s[i] by {
        let c = s[i];
        assert((c as u32) < 128);
        assert(byte_of(c) as u32 == c as u32);
        vstd::utf8::char_u32_cast(c, byte_of(c) as u32);
    }
    assert(t + Seq::new(0, |i: int| '\0') =~= s);
}

/// The characters that may not stand in a directory name, each replaced by
/// `+`.
pub open spec fn reserved(c: char) -> bool {
    c == '/' || c == ':' || c == '*' || c == '?' || c == '"' || c == '>' || c == '<' || c == '|'
        || c == '\\'
}

pub open spec fn sanitized(s: Seq<char>) -> Seq<char> {
    s.map_values(|c: char| if reserved(c) { '+' } else { c })
}

/// Relies on `fancy_regex::Regex::new` and `Regex::replace_all`: the pattern
/// is an alternation of single characters, so each reserved character is one
/// match and is replaced by `+`; other characters stay.
#[verifier::external_body]
fn replace_reserved(origin: &str) -> (r: String)
    ensures
        r@ == sanitized(origin@),
{
    let re = fancy_regex::Regex::new(r#"/|:|\*|\?|"|>|<|\||\\"#).unwrap();
    re.replace_all(origin, "+").into_owned()
}

/// The name of the directory that holds an origin's storage.
pub fn directory_name(origin: &str) -> (r: String)
    ensures
        r@ == sanitized(origin@),
{
    replace_reserved(origin)
}

/// The `k` low bytes of `v`, most significant first.
pub open spec fn be_bytes(v: nat, k: nat) -> Seq<u8>
    decreases k,
{
    if k == 0 { Seq::empty() } else { be_bytes(v / 256, (k - 1) as nat).push((v % 256) as u8) }
}

fn push_be(out: &mut Vec<u8>, v: u64, k: u64)
    requires
        k <= 8,
    ensures
        final(out)@ == old(out)@ + be_bytes(v as nat, k as nat),
    decreases k,
{
    if k > 0 {
        push_be(out, v / 256, k - 1);
        out.push((v % 256) as u8);
        proof {
            assert(final(out)@ =~= old(out)@ + be_bytes(v as nat, k as nat));
        }
    } else {
        proof {
            assert(final(out)@ =~= old(out)@ + be_bytes(v as nat, k as nat));
        }
    }
}

/// The `.metadata-v2` file: the timestamp in microseconds (8 bytes), the
/// persisted flag, suffix and group (1, 4 and 4 zero bytes), the origin's
/// length (2 bytes, modulo 2^16) and one byte per character, and the "is
/// app" flag; numbers are big-endian.
pub open spec fn metadata(timestamp: nat, origin: Seq<char>) -> Seq<u8> {
    be_bytes(timestamp, 8) + seq![0u8] + be_bytes(0, 4) + be_bytes(0, 4) + be_bytes(
        origin.len() % 65536,
        2,
    ) + payload(origin) + seq![0u8]
}

pub fn metadata_bytes(timestamp: u64, origin: &str) -> (r: Vec<u8>)
    ensures
        r@ == metadata(timestamp as nat, origin@),
{
    let bytes: Vec<u8> = payload_bytes(origin);
    let mut out: Vec<u8> = Vec::new();
    push_be(&mut out, timestamp, 8);
    out.push(0);
    push_be(&mut out, 0, 4);
    push_be(&mut out, 0, 4);
    push_be(&mut out, (bytes.len() % 65536) as u64, 2);
    let ghost head = out@;
    let mut i: usize = 0;
    while i < bytes.len()
        invariant
            i <= bytes@.len(),
            out@ == head + bytes@.subrange(0, i as int),
        decreases bytes.len() - i,
    {
        out.push(bytes[i]);
        i = i + 1;
        proof {
            assert(out@ =~= head + bytes@.subrange(0, i as int));
        }
    }
    out.push(0);
    proof {
        assert(bytes@.subrange(0, bytes@.len() as int) =~= bytes@);
        assert(out@ =~= metadata(timestamp as nat, origin@));
    }
    out
}

} // verus!
