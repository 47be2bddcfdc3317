//! Detecting the encoding of a text file's bytes and decoding them to a
//! string. Only UTF-8, UTF-16 LE and Windows-1252 are tried, in that order;
//! the decoding itself is the encoding crate's, the confirmation heuristics
//! and the decision are specified exactly.

use vstd::prelude::*;

verus! {

/// What `encoding_rs::UTF_8.decode` returns for `bytes`: the decoded text,
/// whether the encoding actually used (after BOM sniffing) was UTF-16 LE,
/// whether it was Windows-1252, and whether malformed sequences were
/// replaced. A function of the bytes alone.
pub uninterp spec fn utf8_decode(bytes: Seq<u8>) -> (Seq<char>, bool, bool, bool);

/// What `encoding_rs::UTF_16LE.decode` returns for `bytes`, in the same
/// shape as `utf8_decode`.
pub uninterp spec fn utf16le_decode(bytes: Seq<u8>) -> (Seq<char>, bool, bool, bool);

/// What `encoding_rs::WINDOWS_1252.decode` returns for `bytes`, in the same
/// shape as `utf8_decode`.
pub uninterp spec fn w1252_decode(bytes: Seq<u8>) -> (Seq<char>, bool, bool, bool);

/// Relies on encoding_rs::UTF_8.decode: BOM-sniffing decode of `bytes`; the
/// result is a function of the bytes alone.
#[verifier::external_body]
fn decode_with_utf8(bytes: &Vec<u8>) -> (r: (String, bool, bool, bool))
    ensures
        (r.0@, r.1, r.2, r.3) == utf8_decode(bytes@),
{
    let (cow, used, had_errors) = encoding_rs::UTF_8.decode(bytes);
    (
        cow.into_owned(),
        used == encoding_rs::UTF_16LE,
        used == encoding_rs::WINDOWS_1252,
        had_errors,
    )
}

/// Relies on encoding_rs::UTF_16LE.decode: BOM-sniffing decode of `bytes`;
/// the result is a function of the bytes alone.
#[verifier::external_body]
fn decode_with_utf16le(bytes: &Vec<u8>) -> (r: (String, bool, bool, bool))
    ensures
        (r.0@, r.1, r.2, r.3) == utf16le_decode(bytes@),
{
    let (cow, used, had_errors) = encoding_rs::UTF_16LE.decode(bytes);
    (
        cow.into_owned(),
        used == encoding_rs::UTF_16LE,
        used == encoding_rs::WINDOWS_1252,
        had_errors,
    )
}

/// Relies on encoding_rs::WINDOWS_1252.decode: BOM-sniffing decode of
/// `bytes`; the result is a function of the bytes alone.
#[verifier::external_body]
fn decode_with_w1252(bytes: &Vec<u8>) -> (r: (String, bool, bool, bool))
    ensures
        (r.0@, r.1, r.2, r.3) == w1252_decode(bytes@),
{
    let (cow, used, had_errors) = encoding_rs::WINDOWS_1252.decode(bytes);
    (
        cow.into_owned(),
        used == encoding_rs::UTF_16LE,
        used == encoding_rs::WINDOWS_1252,
        had_errors,
    )
}

/// The number of zero bytes at odd positions from `ix` on, stepping by two:
/// in UTF-16 LE text of mostly Latin script, high bytes are zero.
pub open spec fn zcount(bytes: Seq<u8>, ix: int) -> int
    decreases bytes.len() + 2 - ix,
{
    if ix < 0 || ix >= bytes.len() {
        0
    } else {
        (if bytes[ix] == 0 {
            1int
        } else {
            0int
        }) + zcount(bytes, ix + 2)
    }
}

pub open spec fn is_plain_text_byte(b: u8) -> bool {
    (32 <= b < 128) || b == 9 || b == 10 || b == 13
}

/// The number of plain-text bytes from `ix` on.
pub open spec fn acount_from(bytes: Seq<u8>, ix: int) -> int
    decreases bytes.len() - ix,
{
    if ix < 0 || ix >= bytes.len() {
        0
    } else {
        (if is_plain_text_byte(bytes[ix]) {
            1int
        } else {
            0int
        }) + acount_from(bytes, ix + 1)
    }
}

pub open spec fn has_zero_byte(bytes: Seq<u8>) -> bool {
    exists|i: int| 0 <= i < bytes.len() && bytes[i] == 0
}

/// The Windows-1252 plausibility count: the number of plain-text bytes, or
/// zero as soon as the file holds a zero byte.
pub open spec fn acount(bytes: Seq<u8>) -> int {
    if has_zero_byte(bytes) {
        0
    } else {
        acount_from(bytes, 0)
    }
}

/// Whether a decode result is accepted: no replacement happened, and when the
/// encoding actually used was UTF-16 LE at least 40% of the bytes must be
/// zero high bytes, and when it was Windows-1252 at least 90% of the bytes
/// must be plain text with no zero byte.
pub open spec fn spec_accepts(
    bytes: Seq<u8>,
    used_utf16le: bool,
    used_w1252: bool,
    had_errors: bool,
) -> bool {
    if had_errors {
        false
    } else if used_utf16le && !(zcount(bytes, 1) * 10 >= 4 * bytes.len()) {
        false
    } else if used_w1252 && !(acount(bytes) * 10 >= 9 * bytes.len()) {
        false
    } else {
        true
    }
}

pub open spec fn accepts_tuple(bytes: Seq<u8>, d: (Seq<char>, bool, bool, bool)) -> bool {
    spec_accepts(bytes, d.1, d.2, d.3)
}

/// What decoding a text file's bytes yields: the first of UTF-8, UTF-16 LE
/// and Windows-1252 whose decode is accepted, or nothing.
pub open spec fn spec_decode(bytes: Seq<u8>) -> Option<Seq<char>> {
    if accepts_tuple(bytes, utf8_decode(bytes)) {
        Some(utf8_decode(bytes).0)
    } else if accepts_tuple(bytes, utf16le_decode(bytes)) {
        Some(utf16le_decode(bytes).0)
    } else if accepts_tuple(bytes, w1252_decode(bytes)) {
        Some(w1252_decode(bytes).0)
    } else {
        None
    }
}

proof fn lemma_zcount_bounds(bytes: Seq<u8>, ix: int)
    requires
        0 <= ix <= bytes.len() + 1,
    ensures
        0 <= zcount(bytes, ix),
        2 * zcount(bytes, ix) <= bytes.len() - ix + 1,
    decreases bytes.len() + 2 - ix,
{
    if ix < bytes.len() {
        lemma_zcount_bounds(bytes, ix + 2);
    }
}

fn zcount_x(bytes: &Vec<u8>) -> (r: usize)
    requires
        bytes@.len() < usize::MAX,
    ensures
        r as int == zcount(bytes@, 1),
        r <= bytes@.len(),
{
    let n = bytes.len();
    let mut count: usize = 0;
    let mut ix: usize = 1;
    while ix < n
        invariant
            n == bytes@.len(),
            n < usize::MAX,
            count + zcount(bytes@, ix as int) == zcount(bytes@, 1),
            ix >= 1,
            ix <= n + 1,
        decreases n + 2 - ix,
    {
        proof {
            lemma_zcount_bounds(bytes@, 1);
            lemma_zcount_bounds(bytes@, ix as int + 2);
        }
        if bytes[ix] == 0 {
            count += 1;
        }
        ix += 2;
    }
    proof {
        assert(zcount(bytes@, ix as int) == 0);
        lemma_zcount_bounds(bytes@, 1);
    }
    count
}

fn acount_x(bytes: &Vec<u8>) -> (r: usize)
    ensures
        r as int == acount(bytes@),
        r <= bytes@.len(),
{
    let n = bytes.len();
    let mut count: usize = 0;
    let mut ix: usize = 0;
    while ix < n
        invariant
            n == bytes@.len(),
            count + acount_from(bytes@, ix as int) == acount_from(bytes@, 0),
            count <= ix <= n,
            forall|i: int| 0 <= i < ix ==> bytes@[i] != 0,
        decreases n - ix,
    {
        let b = bytes[ix];
        if b == 0 {
            assert(has_zero_byte(bytes@));
            return 0;
        }
        if (32 <= b && b < 128) || b == 9 || b == 10 || b == 13 {
            count += 1;
        }
        ix += 1;
    }
    proof {
        assert(!has_zero_byte(bytes@));
        assert(acount_from(bytes@, ix as int) == 0);
    }
    count
}

fn accepts_x(bytes: &Vec<u8>, used_utf16le: bool, used_w1252: bool, had_errors: bool) -> (b: bool)
    requires
        bytes@.len() * 10 <= usize::MAX,
        bytes@.len() < usize::MAX,
    ensures
        b == spec_accepts(bytes@, used_utf16le, used_w1252, had_errors),
{
    if had_errors {
        false
    } else if used_utf16le && !(zcount_x(bytes) * 10 >= 4 * bytes.len()) {
        false
    } else if used_w1252 && !(acount_x(bytes) * 10 >= 9 * bytes.len()) {
        false
    } else {
        true
    }
}

/// Decodes a text file's bytes: the first of UTF-8, UTF-16 LE and
/// Windows-1252 whose decode is accepted per `spec_accepts` wins; bytes that
/// none of them explains give back exactly the stated message.
pub fn decode_text(bytes: &Vec<u8>) -> (r: Result<String, String>)
    requires
        bytes@.len() * 10 <= usize::MAX,
        bytes@.len() < usize::MAX,
    ensures
        match spec_decode(bytes@) {
            Some(t) => r matches Ok(s) && s@ == t,
            None => r matches Err(m) && m@
                == "File does not appear to be UTF-8, UTF-16 or Windows-1252 encoded."@,
        },
{
    let d1 = decode_with_utf8(bytes);
    if accepts_x(bytes, d1.1, d1.2, d1.3) {
        return Ok(d1.0);
    }
    let d2 = decode_with_utf16le(bytes);
    if accepts_x(bytes, d2.1, d2.2, d2.3) {
        return Ok(d2.0);
    }
    let d3 = decode_with_w1252(bytes);
    if accepts_x(bytes, d3.1, d3.2, d3.3) {
        return Ok(d3.0);
    }
    Err(String::from_str("File does not appear to be UTF-8, UTF-16 or Windows-1252 encoded."))
}

} // verus!
