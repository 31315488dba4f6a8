//! Static-key material: base64 text, trailing whitespace tolerated, 32
//! decoded bytes.

use vstd::prelude::*;

verus! {

/// What the standard base64 alphabet with padding decodes a byte string to,
/// or `None` when the input is not valid base64.
pub uninterp spec fn b64_decode(s: Seq<u8>) -> Option<Seq<u8>>;

/// Relies on base64's `Engine::decode` with the `STANDARD` engine: the
/// result is a function of the input text alone.
#[verifier::external_body]
fn decode_base64(b: &[u8]) -> (r: Option<Vec<u8>>)
    ensures
        match r {
            Some(v) => b64_decode(b@) == Some(v@),
            None => b64_decode(b@) is None,
        },
{
    match base64::Engine::decode(&base64::engine::general_purpose::STANDARD, b) {
        Ok(v) => Some(v),
        Err(_) => None,
    }
}

/// An ASCII whitespace byte.
pub open spec fn is_ws(b: u8) -> bool {
    b == 32 || b == 9 || b == 10 || b == 13 || b == 11 || b == 12
}

pub open spec fn trim_front(s: Seq<u8>) -> Seq<u8>
    decreases s.len(),
{
    if s.len() > 0 && is_ws(s[0]) {
        trim_front(s.drop_first())
    } else {
        s
    }
}

pub open spec fn trim_back(s: Seq<u8>) -> Seq<u8>
    decreases s.len(),
{
    if s.len() > 0 && is_ws(s.last()) {
        trim_back(s.drop_last())
    } else {
        s
    }
}

/// `s` without leading and trailing ASCII whitespace.
pub open spec fn spec_trimmed(s: Seq<u8>) -> Seq<u8> {
    trim_back(trim_front(s))
}

/// Copies `b` without leading and trailing ASCII whitespace.
pub fn trim_copy(b: &[u8]) -> (r: Vec<u8>)
    ensures
        r@ == spec_trimmed(b@),
{
    let len = b.len();
    let mut lo: usize = 0;
    proof {
        assert(b@.subrange(0, len as int) =~= b@);
    }
    while lo < len && (b[lo] == 32 || b[lo] == 9 || b[lo] == 10 || b[lo] == 13 || b[lo] == 11
        || b[lo] == 12)
        invariant
            lo <= len == b@.len(),
            trim_front(b@) == trim_front(b@.subrange(lo as int, len as int)),
        decreases len - lo,
    {
        proof {
            assert(b@.subrange(lo as int, len as int).drop_first() =~= b@.subrange(
                (lo + 1) as int,
                len as int,
            ));
        }
        lo = lo + 1;
    }
    proof {
        assert(trim_front(b@) =~= b@.subrange(lo as int, len as int));
    }
    let mut hi: usize = len;
    while hi > lo && (b[hi - 1] == 32 || b[hi - 1] == 9 || b[hi - 1] == 10 || b[hi - 1] == 13 || b[
        hi - 1] == 11 || b[hi - 1] == 12)
        invariant
            lo <= hi <= len == b@.len(),
            trim_front(b@) == b@.subrange(lo as int, len as int),
            trim_back(b@.subrange(lo as int, len as int)) == trim_back(
                b@.subrange(lo as int, hi as int),
            ),
        decreases hi,
    {
        proof {
            assert(b@.subrange(lo as int, hi as int).drop_last() =~= b@.subrange(
                lo as int,
                (hi - 1) as int,
            ));
        }
        hi = hi - 1;
    }
    proof {
        assert(trim_back(b@.subrange(lo as int, hi as int)) =~= b@.subrange(lo as int, hi as int));
    }
    let mut out: Vec<u8> = Vec::new();
    let mut k: usize = lo;
    while k < hi
        invariant
            lo <= k <= hi <= b@.len(),
            out@ == b@.subrange(lo as int, k as int),
        decreases hi - k,
    {
        out.push(b[k]);
        proof {
            assert(b@.subrange(lo as int, (k + 1) as int) =~= b@.subrange(lo as int, k as int).push(
                b@[k as int],
            ));
        }
        k = k + 1;
    }
    out
}

/// A 32-byte static key.
#[derive(Clone, Debug)]
pub struct Key {
    pub raw: Vec<u8>,
}

impl Key {
    pub open spec fn wf(self) -> bool {
        self.raw@.len() == 32
    }
}

#[derive(Clone, Copy, PartialEq, Eq, Structural, Debug)]
pub enum KeyError {
    /// The text is not valid base64.
    BadEncoding,
    /// The decoded key is not 32 bytes long.
    WrongLength,
}

/// Key text that decodes, after trimming, to exactly 32 bytes.
pub open spec fn key_text_ok(s: Seq<u8>) -> bool {
    match b64_decode(spec_trimmed(s)) {
        Some(k) => k.len() == 32,
        None => false,
    }
}

/// Loads a key from the text of a key file: trims surrounding whitespace,
/// decodes base64, and demands exactly 32 bytes.
pub fn load_key(contents: &[u8]) -> (r: Result<Key, KeyError>)
    ensures
        match r {
            Ok(k) => k.wf() && b64_decode(spec_trimmed(contents@)) == Some(k.raw@),
            Err(KeyError::BadEncoding) => b64_decode(spec_trimmed(contents@)) is None,
            Err(KeyError::WrongLength) => exists|v: Seq<u8>|
                b64_decode(spec_trimmed(contents@)) == Some(v) && v.len() != 32,
        },
{
    let t = trim_copy(contents);
    match decode_base64(t.as_slice()) {
        None => Err(KeyError::BadEncoding),
        Some(v) => {
            if v.len() == 32 {
                Ok(Key { raw: v })
            } else {
                Err(KeyError::WrongLength)
            }
        },
    }
}

} // verus!
