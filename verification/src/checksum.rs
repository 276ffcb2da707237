//! Checksums of downloaded files: hex parsing and SHA-256 checking.

use sha2::Digest;
use vstd::prelude::*;

use crate::error::Error;
use crate::ident::hex_value;
use crate::text::{chars_of, decimal, decimal_chars, join, join_chars, string_of, texts};

verus! {

pub type MD5 = [u8; 16];

pub type SHA256 = [u8; 32];

/// The checksums a release file gives for one file.
#[derive(Copy, Clone, Debug, Hash, PartialEq, Eq)]
pub struct Hashes {
    pub md5: MD5,
    pub sha256: SHA256,
}

/// The bytes that hex text (as bytes) denotes: two digits per byte, either case.
pub open spec fn hex_decoded(b: Seq<u8>) -> Option<Seq<u8>> {
    if b.len() % 2 == 0 && forall|i: int| 0 <= i < b.len() ==> #[trigger] hex_value(b[i]) is Some {
        Some(
            Seq::new(
                (b.len() / 2) as nat,
                |i: int| (hex_value(b[2 * i])->0 * 16 + hex_value(b[2 * i + 1])->0) as u8,
            ),
        )
    } else {
        None
    }
}

/// The lowercase hex digit for a value below 16.
pub open spec fn hex_digit(v: u8) -> char {
    if v == 0 {
        '0'
    } else if v == 1 {
        '1'
    } else if v == 2 {
        '2'
    } else if v == 3 {
        '3'
    } else if v == 4 {
        '4'
    } else if v == 5 {
        '5'
    } else if v == 6 {
        '6'
    } else if v == 7 {
        '7'
    } else if v == 8 {
        '8'
    } else if v == 9 {
        '9'
    } else if v == 10 {
        'a'
    } else if v == 11 {
        'b'
    } else if v == 12 {
        'c'
    } else if v == 13 {
        'd'
    } else if v == 14 {
        'e'
    } else {
        'f'
    }
}

/// Lowercase hex text for some bytes.
pub open spec fn hex_text(b: Seq<u8>) -> Seq<char>
    decreases b.len(),
{
    if b.len() == 0 {
        Seq::empty()
    } else {
        hex_text(b.drop_last()) + seq![hex_digit(b.last() / 16), hex_digit(b.last() % 16)]
    }
}

/// The SHA-256 digest of some bytes.
pub uninterp spec fn sha256_digest(data: Seq<u8>) -> Seq<u8>;

/// `hex::decode`: the bytes that the hex text denotes, or an error for text
/// of odd length or with a character that is not a hex digit.
#[verifier::external_body]
fn hex_decode(data: &[u8]) -> (r: Result<Vec<u8>, Error>)
    ensures
        match r {
            Ok(v) => hex_decoded(data@) == Some(v@),
            Err(e) => hex_decoded(data@) is None && e == Error::BadChecksum,
        },
{
    hex::decode(data).map_err(|_| Error::BadChecksum)
}

/// `hex::encode`: two lowercase hex digits per byte.
#[verifier::external_body]
pub(crate) fn hex_encode(data: &[u8]) -> (r: String)
    ensures
        r@ == hex_text(data@),
{
    hex::encode(data)
}

/// `Sha256::digest` from `sha2`: the SHA-256 digest of the data. The contract
/// names the digest; what it is for given data is left to the crate.
#[verifier::external_body]
fn sha256_of(data: &[u8]) -> (r: [u8; 32])
    ensures
        r@ == sha256_digest(data@),
{
    sha2::Sha256::digest(data).into()
}

proof fn lemma_hex_digit(v: u8)
    requires
        v < 16,
    ensures
        (hex_digit(v) as u32) < 128,
        hex_value(hex_digit(v) as u8) == Some(v),
{
}

proof fn lemma_hex_text_shape(b: Seq<u8>)
    ensures
        hex_text(b).len() == 2 * b.len(),
        forall|i: int|
            0 <= i < b.len() ==> hex_text(b)[2 * i] == hex_digit(#[trigger] b[i] / 16) && hex_text(b)[2
                * i + 1] == hex_digit(b[i] % 16),
        vstd::utf8::is_ascii_chars(hex_text(b)),
    decreases b.len(),
{
    if b.len() > 0 {
        let p = b.drop_last();
        lemma_hex_text_shape(p);
        let t = hex_text(b);
        let tp = hex_text(p);
        let l = b.last();
        lemma_hex_digit(l / 16);
        lemma_hex_digit(l % 16);
        assert(t == tp + seq![hex_digit(l / 16), hex_digit(l % 16)]);
        assert forall|i: int| 0 <= i < b.len() implies t[2 * i] == hex_digit(#[trigger] b[i] / 16) && t[2 * i + 1] == hex_digit(b[i] % 16) by {
            if i < p.len() {
                assert(p[i] == b[i]);
                assert(t[2 * i] == tp[2 * i]);
                assert(t[2 * i + 1] == tp[2 * i + 1]);
            }
        }
        assert forall|j: int| 0 <= j < t.len() implies '\0' <= #[trigger] t[j] <= '\u{7f}' by {
            if j < tp.len() {
                assert(t[j] == tp[j]);
            }
        }
    }
}

/// Bytes written out in hex by the library read back as the same bytes.
pub proof fn law_hex_round_trip(b: Seq<u8>)
    ensures
        checksum_spec(hex_text(b), b.len()) == Ok::<Seq<u8>, Error>(b),
{
    lemma_hex_text_shape(b);
    let t = hex_text(b);
    let e = vstd::utf8::encode_utf8(t);
    vstd::utf8::is_ascii_chars_encode_utf8(t);
    assert forall|i: int| 0 <= i < b.len() implies hex_value(e[2 * i]) == Some(#[trigger] b[i] / 16) && hex_value(e[2 * i + 1]) == Some(b[i] % 16) by {
        lemma_hex_digit(b[i] / 16);
        lemma_hex_digit(b[i] % 16);
        assert(e[2 * i] == t[2 * i] as u8);
        assert(e[2 * i + 1] == t[2 * i + 1] as u8);
    }
    assert forall|j: int| 0 <= j < e.len() implies #[trigger] hex_value(e[j]) is Some by {
        let i = j / 2;
        assert(e.len() == 2 * b.len());
        assert(0 <= i < b.len());
        assert(hex_value(e[2 * i]) == Some(b[i] / 16));
        assert(hex_value(e[2 * i + 1]) == Some(b[i] % 16));
        if j % 2 == 0 {
            assert(j == 2 * i);
        } else {
            assert(j == 2 * i + 1);
        }
    }
    let d = Seq::new(
        (e.len() / 2) as nat,
        |i: int| (hex_value(e[2 * i])->0 * 16 + hex_value(e[2 * i + 1])->0) as u8,
    );
    assert forall|i: int| 0 <= i < b.len() implies d[i] == #[trigger] b[i] by {
        assert(hex_value(e[2 * i]) == Some(b[i] / 16));
        assert(hex_value(e[2 * i + 1]) == Some(b[i] % 16));
        assert((b[i] / 16) * 16 + b[i] % 16 == b[i]);
    }
    assert(d =~= b);
}

/// A hex checksum of `n` bytes.
pub open spec fn checksum_spec(s: Seq<char>, n: nat) -> Result<Seq<u8>, Error> {
    match hex_decoded(vstd::utf8::encode_utf8(s)) {
        Some(v) => if v.len() == n {
            Ok(v)
        } else {
            Err(Error::BadChecksum)
        },
        None => Err(Error::BadChecksum),
    }
}

/// Read an MD5 checksum written in hex.
pub fn parse_md5(hash: &str) -> (r: Result<MD5, Error>)
    ensures
        match r {
            Ok(a) => checksum_spec(hash@, 16) == Ok::<Seq<u8>, Error>(a@),
            Err(e) => checksum_spec(hash@, 16) == Err::<Seq<u8>, Error>(e),
        },
{
    let v = hex_decode(hash.as_bytes())?;
    if v.len() != 16 {
        return Err(Error::BadChecksum);
    }
    let mut arr = [0u8; 16];
    let mut k: usize = 0;
    while k < 16
        invariant
            k <= 16,
            v@.len() == 16,
            forall|i: int| 0 <= i < k ==> arr@[i] == v@[i],
        decreases 16 - k,
    {
        arr.set(k, v[k]);
        k = k + 1;
    }
    assert(arr@ =~= v@);
    Ok(arr)
}

/// Read a SHA-256 checksum written in hex.
pub fn parse_sha256(hash: &str) -> (r: Result<SHA256, Error>)
    ensures
        match r {
            Ok(a) => checksum_spec(hash@, 32) == Ok::<Seq<u8>, Error>(a@),
            Err(e) => checksum_spec(hash@, 32) == Err::<Seq<u8>, Error>(e),
        },
{
    let v = hex_decode(hash.as_bytes())?;
    if v.len() != 32 {
        return Err(Error::BadChecksum);
    }
    let mut arr = [0u8; 32];
    let mut k: usize = 0;
    while k < 32
        invariant
            k <= 32,
            v@.len() == 32,
            forall|i: int| 0 <= i < k ==> arr@[i] == v@[i],
        decreases 32 - k,
    {
        arr.set(k, v[k]);
        k = k + 1;
    }
    assert(arr@ =~= v@);
    Ok(arr)
}

/// Check downloaded data against the SHA-256 checksum it should have.
pub fn validate(data: &[u8], checksum: Hashes) -> (r: Result<(), Error>)
    ensures
        r is Ok <==> sha256_digest(data@) == checksum.sha256@,
        r matches Err(e) ==> e == Error::ChecksumMismatch,
{
    let d = sha256_of(data);
    let mut k: usize = 0;
    while k < 32
        invariant
            k <= 32,
            d@ == sha256_digest(data@),
            forall|i: int| 0 <= i < k ==> d@[i] == checksum.sha256@[i],
        decreases 32 - k,
    {
        if d[k] != checksum.sha256[k] {
            return Err(Error::ChecksumMismatch);
        }
        k = k + 1;
    }
    assert(d@ =~= checksum.sha256@);
    Ok(())
}

/// What the gzip data decompresses to, or `None` when it is not gzip data.
pub uninterp spec fn gunzipped(data: Seq<u8>) -> Option<Seq<u8>>;

/// `flate2::bufread::GzDecoder` read to its end over the bytes: the
/// decompressed content, or `None` when decoding fails. The result depends
/// on the bytes alone; the deflate format is not restated.
#[verifier::external_body]
fn gunzip(data: &[u8]) -> (r: Option<Vec<u8>>)
    ensures
        match r {
            Some(v) => gunzipped(data@) == Some(v@),
            None => gunzipped(data@) is None,
        },
{
    let mut out = Vec::new();
    match std::io::Read::read_to_end(&mut flate2::bufread::GzDecoder::new(data), &mut out) {
        Ok(_) => Some(out),
        Err(_) => None,
    }
}

/// Decompress a downloaded gzip listing and check it against the SHA-256
/// checksum its content should have: the content, `BadGzip` if it does not
/// decompress, `ChecksumMismatch` if the content is not the one expected.
pub fn decompress_checked(compressed: &[u8], expected: Hashes) -> (r: Result<Vec<u8>, Error>)
    ensures
        match (r, gunzipped(compressed@)) {
            (Ok(v), Some(d)) => v@ == d && sha256_digest(d) == expected.sha256@,
            (Err(e), Some(d)) => e == Error::ChecksumMismatch && sha256_digest(d) != expected.sha256@,
            (Err(e), None) => e == Error::BadGzip,
            _ => false,
        },
{
    let data = match gunzip(compressed) {
        Some(d) => d,
        None => {
            return Err(Error::BadGzip);
        },
    };
    validate(data.as_slice(), expected)?;
    Ok(data)
}

/// A byte array as `{:?}` shows it: the decimal values, comma-separated,
/// in square brackets.
pub open spec fn byte_list(b: Seq<u8>) -> Seq<char> {
    "["@ + join(Seq::new(b.len(), |i: int| decimal(b[i] as nat)), ", "@) + "]"@
}

/// The bytes as `[a, b, ...]`.
pub fn byte_list_text(b: &[u8]) -> (r: Vec<char>)
    ensures
        r@ == byte_list(b@),
{
    let mut parts: Vec<Vec<char>> = Vec::new();
    let mut k: usize = 0;
    while k < b.len()
        invariant
            k <= b@.len(),
            parts@.len() == k,
            forall|i: int| 0 <= i < k ==> #[trigger] parts@[i]@ == decimal(b@[i] as nat),
        decreases b@.len() - k,
    {
        let d = decimal_chars(b[k] as u64);
        parts.push(d);
        k = k + 1;
    }
    assert(texts(parts@) =~= Seq::new(b@.len(), |i: int| decimal(b@[i] as nat)));
    let sep = chars_of(", ");
    let inner = join_chars(parts.as_slice(), sep.as_slice());
    let mut out = chars_of("[");
    append_chars(&mut out, &inner);
    let close = chars_of("]");
    append_chars(&mut out, &close);
    out
}

impl Hashes {
    /// `Hashes { md5: [..], sha256: [..] }`, the form `{:?}` gives.
    pub open spec fn debug_spec(&self) -> Seq<char> {
        "Hashes { md5: "@ + byte_list(self.md5@) + ", sha256: "@ + byte_list(self.sha256@) + " }"@
    }

    /// The hashes as `{:?}` shows them.
    pub fn debug_text(&self) -> (r: Vec<char>)
        ensures
            r@ == self.debug_spec(),
    {
        let mut out = chars_of("Hashes { md5: ");
        let m = byte_list_text(&self.md5);
        append_chars(&mut out, &m);
        let mid = chars_of(", sha256: ");
        append_chars(&mut out, &mid);
        let s = byte_list_text(&self.sha256);
        append_chars(&mut out, &s);
        let close = chars_of(" }");
        append_chars(&mut out, &close);
        out
    }

    /// `md5:<hex> sha256:<hex>`, as the hashes are shown.
    pub fn describe(&self) -> (r: String)
        ensures
            r@ == "md5:"@ + hex_text(self.md5@) + " sha256:"@ + hex_text(self.sha256@),
    {
        let a = chars_of("md5:");
        let b = chars_of(hex_encode(&self.md5).as_str());
        let c = chars_of(" sha256:");
        let d = chars_of(hex_encode(&self.sha256).as_str());
        let mut out: Vec<char> = Vec::new();
        append_chars(&mut out, &a);
        append_chars(&mut out, &b);
        append_chars(&mut out, &c);
        append_chars(&mut out, &d);
        string_of(out.as_slice())
    }
}

/// Append `src` to `dst`.
pub fn append_chars(dst: &mut Vec<char>, src: &Vec<char>)
    ensures
        final(dst)@ == old(dst)@ + src@,
{
    let ghost d0 = dst@;
    let mut k: usize = 0;
    while k < src.len()
        invariant
            k <= src@.len(),
            dst@ == d0 + src@.subrange(0, k as int),
        decreases src@.len() - k,
    {
        dst.push(src[k]);
        k = k + 1;
    }
    assert(src@.subrange(0, src@.len() as int) =~= src@);
}

} // verus!
