//! Byte-level building blocks of the USB/IP wire format: big-endian integers
//! and NUL-padded fixed-width text fields.
use vstd::prelude::*;
use vstd::utf8::*;
use byteorder::{BigEndian, ByteOrder};

use crate::error::{DecodeError, EncodeError};

verus! {

broadcast use vstd::utf8::group_utf8_lib;

/// The two bytes of `n`, most significant first.
pub open spec fn be16_bytes(n: u16) -> Seq<u8> {
    seq![(n / 256) as u8, (n % 256) as u8]
}

/// The four bytes of `n`, most significant first.
pub open spec fn be32_bytes(n: u32) -> Seq<u8> {
    seq![
        (n / 0x100_0000) as u8,
        ((n / 0x1_0000) % 256) as u8,
        ((n / 256) % 256) as u8,
        (n % 256) as u8,
    ]
}

/// The number whose big-endian form starts `b`.
pub open spec fn be16_value(b: Seq<u8>) -> u16 {
    (b[0] * 256 + b[1]) as u16
}

/// The number whose big-endian form starts `b`.
pub open spec fn be32_value(b: Seq<u8>) -> u32 {
    (b[0] * 0x100_0000 + b[1] * 0x1_0000 + b[2] * 256 + b[3]) as u32
}

/// A 16-bit number reads back from its two big-endian bytes.
pub proof fn lemma_be16_roundtrip(n: u16)
    ensures
        be16_bytes(n).len() == 2,
        be16_value(be16_bytes(n)) == n,
{
}

/// A 32-bit number reads back from its four big-endian bytes.
pub proof fn lemma_be32_roundtrip(n: u32)
    ensures
        be32_bytes(n).len() == 4,
        be32_value(be32_bytes(n)) == n,
{
    assert((n / 0x100_0000) * 0x100_0000 + ((n / 0x1_0000) % 256) * 0x1_0000 + ((n / 256) % 256)
        * 256 + n % 256 == n) by (bit_vector);
}

/// `ByteOrder::write_u16` of `BigEndian` into a fresh two-byte buffer: it stores
/// `n` most significant byte first.
#[verifier::external_body]
fn u16_be_bytes(n: u16) -> (b: [u8; 2])
    ensures
        b@ == be16_bytes(n),
{
    let mut b = [0u8; 2];
    BigEndian::write_u16(&mut b, n);
    b
}

/// `ByteOrder::write_u32` of `BigEndian` into a fresh four-byte buffer: it stores
/// `n` most significant byte first.
#[verifier::external_body]
fn u32_be_bytes(n: u32) -> (b: [u8; 4])
    ensures
        b@ == be32_bytes(n),
{
    let mut b = [0u8; 4];
    BigEndian::write_u32(&mut b, n);
    b
}

/// `ByteOrder::read_u16` of `BigEndian`: the number whose big-endian form is the
/// first two bytes of `buf` (it panics on a shorter buffer).
#[verifier::external_body]
fn read_be_u16(buf: &[u8]) -> (n: u16)
    requires
        buf@.len() >= 2,
    ensures
        n == be16_value(buf@),
{
    BigEndian::read_u16(buf)
}

/// `ByteOrder::read_u32` of `BigEndian`: the number whose big-endian form is the
/// first four bytes of `buf` (it panics on a shorter buffer).
#[verifier::external_body]
fn read_be_u32(buf: &[u8]) -> (n: u32)
    requires
        buf@.len() >= 4,
    ensures
        n == be32_value(buf@),
{
    BigEndian::read_u32(buf)
}

/// Appends `n` in big-endian order.
pub fn put_u16(out: &mut Vec<u8>, n: u16)
    ensures
        final(out)@ == old(out)@ + be16_bytes(n),
{
    let b = u16_be_bytes(n);
    out.push(b[0]);
    out.push(b[1]);
    assert(final(out)@ =~= old(out)@ + be16_bytes(n));
}

/// Appends `n` in big-endian order.
pub fn put_u32(out: &mut Vec<u8>, n: u32)
    ensures
        final(out)@ == old(out)@ + be32_bytes(n),
{
    let b = u32_be_bytes(n);
    out.push(b[0]);
    out.push(b[1]);
    out.push(b[2]);
    out.push(b[3]);
    assert(final(out)@ =~= old(out)@ + be32_bytes(n));
}

/// Reads the big-endian `u16` at `pos`.
pub fn get_u16(bytes: &[u8], pos: usize) -> (n: u16)
    requires
        pos + 2 <= bytes@.len(),
    ensures
        n == be16_value(bytes@.subrange(pos as int, pos + 2)),
{
    let len = bytes.len();
    let window = &bytes[pos..pos + 2];
    read_be_u16(window)
}

/// Reads the big-endian `u32` at `pos`.
pub fn get_u32(bytes: &[u8], pos: usize) -> (n: u32)
    requires
        pos + 4 <= bytes@.len(),
    ensures
        n == be32_value(bytes@.subrange(pos as int, pos + 4)),
{
    let len = bytes.len();
    let window = &bytes[pos..pos + 4];
    read_be_u32(window)
}

/// `k` zero bytes.
pub open spec fn zeros(k: nat) -> Seq<u8> {
    Seq::new(k, |i: int| 0u8)
}

/// Whether text `s` fits a field of `width` bytes with room for its terminating NUL.
pub open spec fn fits_field(s: Seq<char>, width: nat) -> bool {
    encode_utf8(s).len() < width
}

/// The field of `width` bytes holding `s`: its UTF-8 bytes, then NUL padding.
pub open spec fn str_field(s: Seq<char>, width: nat) -> Seq<u8> {
    encode_utf8(s) + zeros((width - encode_utf8(s).len()) as nat)
}

/// `k` is where the NUL-terminated text at the start of `b` ends: no NUL before
/// it, and a NUL at it unless it is the end of `b`.
pub open spec fn is_text_end(b: Seq<u8>, k: int) -> bool {
    &&& 0 <= k <= b.len()
    &&& forall|j: int| 0 <= j < k ==> b[j] != 0
    &&& k < b.len() ==> b[k] == 0
}

/// Where the NUL-terminated text at the start of `b` ends.
pub open spec fn text_end(b: Seq<u8>) -> int {
    choose|k: int| is_text_end(b, k)
}

/// The bytes of `b` before its first NUL (all of `b` when it holds none).
pub open spec fn text_before_nul(b: Seq<u8>) -> Seq<u8> {
    b.take(text_end(b))
}

/// The text of `b` ends at any position that is the end of a NUL-terminated
/// text: there is only one.
pub proof fn lemma_text_end_unique(b: Seq<u8>, k: int)
    requires
        is_text_end(b, k),
    ensures
        text_end(b) == k,
        text_before_nul(b) == b.take(k),
{
    let c = text_end(b);
    assert(is_text_end(b, c));
    if c < k {
        assert(b[c] != 0);
    } else if k < c {
        assert(b[k] != 0);
    }
}

/// How a fixed-width text field reads: too few bytes, bytes that are not UTF-8,
/// or the text.
pub open spec fn parse_str_field(b: Seq<u8>, width: nat) -> Option<Result<Seq<char>, ()>> {
    if b.len() < width {
        None
    } else {
        let t = text_before_nul(b.take(width as int));
        if valid_utf8(t) {
            Some(Ok(decode_utf8(t)))
        } else {
            Some(Err(()))
        }
    }
}

/// A non-NUL character never yields a zero byte in UTF-8.
pub proof fn lemma_scalar_has_no_nul(c: char)
    requires
        c != '\0',
    ensures
        forall|j: int| 0 <= j < encode_scalar(c as u32).len() ==> #[trigger] encode_scalar(c as u32)[j] != 0,
{
    let v = c as u32;
    assert(v != 0);
    if has_width_1_encoding(v) {
        assert(leading_byte_width_1(v) != 0) by (bit_vector)
            requires has_width_1_encoding(v), v != 0;
    } else if has_width_2_encoding(v) {
        assert(leading_byte_width_2(v) != 0 && last_continuation_byte(v) != 0) by (bit_vector);
    } else if has_width_3_encoding(v) {
        assert(leading_byte_width_3(v) != 0 && second_last_continuation_byte(v) != 0
            && last_continuation_byte(v) != 0) by (bit_vector);
    } else {
        assert(leading_byte_width_4(v) != 0 && third_last_continuation_byte(v) != 0
            && second_last_continuation_byte(v) != 0 && last_continuation_byte(v) != 0)
            by (bit_vector);
    }
}

/// Text without NUL characters has no zero byte in its UTF-8 form.
pub proof fn lemma_utf8_has_no_nul(s: Seq<char>)
    requires
        !s.contains('\0'),
    ensures
        forall|j: int| 0 <= j < encode_utf8(s).len() ==> #[trigger] encode_utf8(s)[j] != 0,
    decreases s.len(),
{
    if s.len() > 0 {
        assert(s[0] != '\0') by {
            if s[0] == '\0' {
                assert(s.contains('\0'));
            }
        }
        lemma_scalar_has_no_nul(s[0]);
        let rest = s.drop_first();
        assert(!rest.contains('\0')) by {
            if rest.contains('\0') {
                let i = choose|i: int| 0 <= i < rest.len() && rest[i] == '\0';
                assert(s[i + 1] == '\0');
            }
        }
        lemma_utf8_has_no_nul(rest);
        let head = encode_scalar(s[0] as u32);
        assert(encode_utf8(s) == head + encode_utf8(rest));
        assert forall|j: int| 0 <= j < encode_utf8(s).len() implies encode_utf8(s)[j] != 0 by {
            if j < head.len() {
            } else {
                assert(encode_utf8(s)[j] == encode_utf8(rest)[j - head.len()]);
            }
        }
    }
}

/// A field written from text that fits and holds no NUL reads back as that text,
/// whatever follows it.
pub proof fn lemma_str_field_roundtrip(s: Seq<char>, width: nat, rest: Seq<u8>)
    requires
        fits_field(s, width),
        !s.contains('\0'),
    ensures
        str_field(s, width).len() == width,
        parse_str_field(str_field(s, width) + rest, width) == Some(Ok::<Seq<char>, ()>(s)),
{
    let e = encode_utf8(s);
    let f = str_field(s, width);
    let b = f + rest;
    lemma_utf8_has_no_nul(s);
    assert(f.len() == width);
    assert(b.take(width as int) =~= f);
    assert(is_text_end(f, e.len() as int)) by {
        assert forall|j: int| 0 <= j < e.len() implies f[j] != 0 by {
            assert(f[j] == e[j]);
        }
        assert(f[e.len() as int] == 0);
    }
    lemma_text_end_unique(f, e.len() as int);
    assert(f.take(e.len() as int) =~= e);
}

/// `std::str::from_utf8`: it accepts exactly the valid UTF-8 byte strings and then
/// yields the text they encode.
#[verifier::external_body]
fn str_from_utf8(v: &[u8]) -> (r: Result<&str, std::str::Utf8Error>)
    ensures
        r is Ok <==> valid_utf8(v@),
        r matches Ok(s) ==> s@ == decode_utf8(v@),
{
    std::str::from_utf8(v)
}

/// Reads a NUL-padded text field: the bytes before the first NUL, as UTF-8.
/// `buf` is the whole field.
pub fn string_from_fixed_length_buffer(buf: &[u8]) -> (r: Result<String, DecodeError>)
    ensures
        match r {
            Ok(s) => valid_utf8(text_before_nul(buf@)) && s@ == decode_utf8(text_before_nul(buf@)),
            Err(e) => !valid_utf8(text_before_nul(buf@)) && e is InvalidUtf8,
        },
{
    let mut k: usize = 0;
    while k < buf.len()
        invariant
            0 <= k <= buf@.len(),
            forall|j: int| 0 <= j < k ==> buf@[j] != 0,
        ensures
            0 <= k <= buf@.len(),
            forall|j: int| 0 <= j < k ==> buf@[j] != 0,
            k < buf@.len() ==> buf@[k as int] == 0,
        decreases buf@.len() - k,
    {
        if buf[k] == 0 {
            break;
        }
        k = k + 1;
    }
    proof {
        lemma_text_end_unique(buf@, k as int);
    }
    let text = &buf[0..k];
    assert(text@ =~= text_before_nul(buf@));
    match str_from_utf8(text) {
        Ok(s) => Ok(s.to_owned()),
        Err(e) => Err(DecodeError::InvalidUtf8(e)),
    }
}

/// Writes `s` into a field of `width` bytes, NUL-padded; the text must leave room
/// for its terminating NUL.
pub fn fixed_length_buffer_from_str(s: &str, width: usize) -> (r: Result<Vec<u8>, EncodeError>)
    ensures
        match r {
            Ok(b) => fits_field(s@, width as nat) && b@ == str_field(s@, width as nat),
            Err(EncodeError::StringExceedsFieldWidth(t, w)) => !fits_field(s@, width as nat)
                && t@ == s@ && w == width,
            Err(_) => false,
        },
{
    let bytes = s.as_bytes();
    if bytes.len() >= width {
        return Err(EncodeError::StringExceedsFieldWidth(s.to_owned(), width));
    }
    let mut buf: Vec<u8> = Vec::new();
    let mut i: usize = 0;
    while i < bytes.len()
        invariant
            i <= bytes@.len(),
            bytes@ == encode_utf8(s@),
            buf@ == bytes@.take(i as int),
        decreases bytes@.len() - i,
    {
        buf.push(bytes[i]);
        i = i + 1;
        assert(buf@ =~= bytes@.take(i as int));
    }
    while i < width
        invariant
            bytes@.len() <= i <= width,
            bytes@ == encode_utf8(s@),
            buf@ == bytes@ + zeros((i - bytes@.len()) as nat),
        decreases width - i,
    {
        buf.push(0);
        i = i + 1;
        assert(buf@ =~= bytes@ + zeros((i - bytes@.len()) as nat));
    }
    Ok(buf)
}

/// The error `std::io::Read::read_exact` reports when input ends early
/// (`std::io::Error::from(std::io::ErrorKind::UnexpectedEof)`).
#[verifier::external_body]
pub(crate) fn unexpected_eof() -> std::io::Error {
    std::io::Error::from(std::io::ErrorKind::UnexpectedEof)
}

} // verus!
