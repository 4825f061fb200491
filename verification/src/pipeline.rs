//! Hash & compress pipeline for uploaded payloads.
//!
//! A payload is fingerprinted with a fast 64-bit content hash rendered
//! as 16 hex digits, and compressed with a deflate-family scheme at the
//! highest ratio.  Both transforms are pure functions of the bytes; the
//! hash and the compressed form are named by uninterpreted spec
//! functions and everything around them is verified.

use vstd::prelude::*;

verus! {

/// The 64-bit content fingerprint that the streaming hasher of the
/// `seahash` crate assigns to a byte sequence (with its prechosen
/// default seeds).  A pure function of the bytes.
pub uninterp spec fn sea_hash(bytes: Seq<u8>) -> u64;

/// The zlib (deflate-family) compressed form of a byte sequence at the
/// best compression level, as produced by the `flate2` crate.  A pure
/// function of the bytes.
pub uninterp spec fn deflate_of(bytes: Seq<u8>) -> Seq<u8>;

/// The zlib decompression of a byte sequence, as computed by the
/// `flate2` crate: `None` exactly on streams that do not decode.
pub uninterp spec fn inflate_of(bytes: Seq<u8>) -> Option<Seq<u8>>;

/// Relies on `seahash::SeaHasher` (`Hasher::write` then `finish`): the
/// result depends on the input bytes alone.
#[verifier::external_body]
fn sea_hash_exec(bytes: &[u8]) -> (r: u64)
    ensures
        r == sea_hash(bytes@),
{
    let mut hasher = seahash::SeaHasher::default();
    std::hash::Hasher::write(&mut hasher, bytes);
    std::hash::Hasher::finish(&hasher)
}

/// Relies on `flate2::write::ZlibEncoder` at `Compression::best()`:
/// writing to an in-memory buffer cannot fail, the output depends on
/// the input bytes alone, and `flate2`'s decoder restores the input
/// losslessly.
#[verifier::external_body]
pub fn compress_in_mem(bytes_to_compress: &[u8]) -> (out: Vec<u8>)
    ensures
        out@ == deflate_of(bytes_to_compress@),
        inflate_of(out@) == Some(bytes_to_compress@),
{
    let mut encoder =
        flate2::write::ZlibEncoder::new(Vec::new(), flate2::Compression::best());
    std::io::Write::write_all(&mut encoder, bytes_to_compress)
        .expect("write to a Vec cannot fail");
    encoder.finish().expect("finish to a Vec cannot fail")
}

/// Relies on `flate2::write::ZlibDecoder`: decoding depends on the
/// input bytes alone and fails exactly on streams that are not valid
/// zlib data.
#[verifier::external_body]
pub fn decompress_in_mem(bytes_to_decompress: &[u8]) -> (out: Option<Vec<u8>>)
    ensures
        match out {
            Some(v) => inflate_of(bytes_to_decompress@) == Some(v@),
            None => inflate_of(bytes_to_decompress@) is None,
        },
{
    let mut decoder = flate2::write::ZlibDecoder::new(Vec::new());
    if std::io::Write::write_all(&mut decoder, bytes_to_decompress).is_err() {
        return None;
    }
    decoder.finish().ok()
}

/// Relies on `String::push`: appends the character to the string.
pub assume_specification[ String::push ](s: &mut String, ch: char)
    ensures
        final(s)@ == old(s)@.push(ch),
;

/// The character for one hex digit (lower case).
pub open spec fn hex_digit(d: int) -> char {
    if d == 0 {
        '0'
    } else if d == 1 {
        '1'
    } else if d == 2 {
        '2'
    } else if d == 3 {
        '3'
    } else if d == 4 {
        '4'
    } else if d == 5 {
        '5'
    } else if d == 6 {
        '6'
    } else if d == 7 {
        '7'
    } else if d == 8 {
        '8'
    } else if d == 9 {
        '9'
    } else if d == 10 {
        'a'
    } else if d == 11 {
        'b'
    } else if d == 12 {
        'c'
    } else if d == 13 {
        'd'
    } else if d == 14 {
        'e'
    } else {
        'f'
    }
}

/// The last `n` hex digits of `v`, most significant first.
pub open spec fn hex_digits(v: int, n: nat) -> Seq<char>
    decreases n,
{
    if n == 0 {
        Seq::empty()
    } else {
        hex_digits(v / 16, (n - 1) as nat).push(hex_digit(v % 16))
    }
}

/// The 16-hex-digit rendering of a 64-bit value, zero padded.
pub open spec fn hex16(v: u64) -> Seq<char> {
    hex_digits(v as int, 16)
}

fn hex_digit_exec(d: u64) -> (c: char)
    requires
        d < 16,
    ensures
        c == hex_digit(d as int),
{
    if d == 0 {
        '0'
    } else if d == 1 {
        '1'
    } else if d == 2 {
        '2'
    } else if d == 3 {
        '3'
    } else if d == 4 {
        '4'
    } else if d == 5 {
        '5'
    } else if d == 6 {
        '6'
    } else if d == 7 {
        '7'
    } else if d == 8 {
        '8'
    } else if d == 9 {
        '9'
    } else if d == 10 {
        'a'
    } else if d == 11 {
        'b'
    } else if d == 12 {
        'c'
    } else if d == 13 {
        'd'
    } else if d == 14 {
        'e'
    } else {
        'f'
    }
}

fn hex_str(v: u64, n: usize) -> (s: String)
    ensures
        s@ == hex_digits(v as int, n as nat),
    decreases n,
{
    if n == 0 {
        String::new()
    } else {
        let mut s = hex_str(v / 16, n - 1);
        s.push(hex_digit_exec(v % 16));
        s
    }
}

/// The content fingerprint of a payload: the 64-bit fast hash of the
/// uncompressed bytes, rendered as 16 lower-case hex digits.
pub fn hash_of(bytes_to_hash: &[u8]) -> (r: String)
    ensures
        r@ == hex16(sea_hash(bytes_to_hash@)),
        r@.len() == 16,
{
    let h = sea_hash_exec(bytes_to_hash);
    let s = hex_str(h, 16);
    proof {
        lemma_hex_digits_len(h as int, 16);
    }
    s
}

/// The decimal digits of a non-negative value, most significant
/// first.
pub open spec fn dec_digits(v: int) -> Seq<char>
    decreases v,
{
    if v < 10 {
        seq![hex_digit(if v < 0 { 0 } else { v })]
    } else {
        dec_digits(v / 10).push(hex_digit(v % 10))
    }
}

/// Render a 32-bit value in decimal.
pub fn u32_dec(v: u32) -> (s: String)
    ensures
        s@ == dec_digits(v as int),
    decreases v,
{
    if v < 10 {
        let mut s = String::new();
        s.push(hex_digit_exec(v as u64));
        s
    } else {
        let mut s = u32_dec(v / 10);
        s.push(hex_digit_exec((v % 10) as u64));
        s
    }
}

proof fn lemma_hex_digits_len(v: int, n: nat)
    ensures
        hex_digits(v, n).len() == n,
    decreases n,
{
    if n > 0 {
        lemma_hex_digits_len(v / 16, (n - 1) as nat);
    }
}

} // verus!
