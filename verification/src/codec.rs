//! The codec descriptor: a uniform surface over the two codecs, selected by
//! canonical name, together with the error class that encoding reports.

use crate::utf8;
use crate::windows1252;
use vstd::prelude::*;
use vstd::string::StrSliceExecFns;

verus! {

/// The replacement character U+FFFD, substituted by every decoder for a byte
/// subsequence that cannot be decoded.
pub const REPLACEMENT_CHARACTER: u32 = 0xFFFD;

/// The terminal failure that an encoder reports. Decoding never fails.
#[derive(Clone, Copy, Debug, PartialEq, Eq, Structural)]
pub enum EncodeError {
    /// A code point in the surrogate range or above 0x10FFFF was handed to
    /// the UTF-8 encoder.
    InvalidCodePoint,
    /// A code point with no Windows-1252 representation was handed to the
    /// Windows-1252 encoder.
    Unrepresentable,
}

/// A codec descriptor: one variant per supported encoding, each bundling a
/// canonical name with its encode and decode operations.
#[derive(Clone, Copy, Debug, PartialEq, Eq, Structural)]
pub enum Encoding {
    Utf8,
    Windows1252,
}

impl Encoding {
    /// The canonical lowercase name of the encoding.
    pub open spec fn spec_name(self) -> Seq<char> {
        match self {
            Encoding::Utf8 => "utf-8"@,
            Encoding::Windows1252 => "windows-1252"@,
        }
    }

    /// Whether the encoding can represent the code point.
    pub open spec fn spec_encodable(self, cp: u32) -> bool {
        match self {
            Encoding::Utf8 => utf8::is_scalar_value(cp),
            Encoding::Windows1252 => windows1252::encodable(cp),
        }
    }

    /// What the encoding's decode operation yields.
    pub open spec fn spec_decode(self, bytes: Seq<u8>) -> Seq<u32> {
        match self {
            Encoding::Utf8 => utf8::spec_decode(bytes),
            Encoding::Windows1252 => windows1252::spec_decode(bytes),
        }
    }

    /// What the encoding's encode operation yields on representable input.
    pub open spec fn spec_encode(self, cps: Seq<u32>) -> Seq<u8> {
        match self {
            Encoding::Utf8 => utf8::spec_encode(cps),
            Encoding::Windows1252 => windows1252::spec_encode(cps),
        }
    }

    /// The error the encoding's encoder reports on unrepresentable input.
    pub open spec fn spec_error(self) -> EncodeError {
        match self {
            Encoding::Utf8 => EncodeError::InvalidCodePoint,
            Encoding::Windows1252 => EncodeError::Unrepresentable,
        }
    }

    /// The canonical name of the encoding.
    pub fn name(&self) -> (r: &'static str)
        ensures
            r@ == self.spec_name(),
    {
        match self {
            Encoding::Utf8 => "utf-8",
            Encoding::Windows1252 => "windows-1252",
        }
    }

    /// Decodes a byte sequence under this encoding. Never fails.
    pub fn decode(&self, bytes: &Vec<u8>) -> (r: Vec<u32>)
        ensures
            r@ == self.spec_decode(bytes@),
    {
        match self {
            Encoding::Utf8 => utf8::decode_utf8(bytes),
            Encoding::Windows1252 => windows1252::decode_windows1252(bytes),
        }
    }

    /// Encodes a code-point sequence under this encoding. Succeeds exactly
    /// when every code point is representable; otherwise reports this
    /// encoding's error, with no partial output.
    pub fn encode(&self, cps: &Vec<u32>) -> (r: Result<Vec<u8>, EncodeError>)
        ensures
            r is Ok <==> (forall|k: int| 0 <= k < cps@.len() ==> self.spec_encodable(cps@[k])),
            r matches Ok(out) ==> out@ == self.spec_encode(cps@),
            r matches Err(e) ==> e == self.spec_error(),
    {
        match self {
            Encoding::Utf8 => utf8::encode_utf8(cps),
            Encoding::Windows1252 => windows1252::encode_windows1252(cps),
        }
    }
}

fn str_eq(a: &str, b: &str) -> (r: bool)
    ensures
        r == (a@ == b@),
{
    let n = a.unicode_len();
    if n != b.unicode_len() {
        return false;
    }
    let mut i: usize = 0;
    while i < n
        invariant
            n == a@.len(),
            n == b@.len(),
            i <= n,
            forall|k: int| 0 <= k < i ==> a@[k] == b@[k],
        decreases n - i,
    {
        if a.get_char(i) != b.get_char(i) {
            return false;
        }
        i = i + 1;
    }
    proof {
        assert(a@ =~= b@);
    }
    true
}

/// Looks a codec descriptor up by its canonical name. Unknown names give
/// `None`.
pub fn by_name(name: &str) -> (r: Option<Encoding>)
    ensures
        match r {
            Some(enc) => name@ == enc.spec_name(),
            None => name@ != "utf-8"@ && name@ != "windows-1252"@,
        },
{
    if str_eq(name, "utf-8") {
        Some(Encoding::Utf8)
    } else if str_eq(name, "windows-1252") {
        Some(Encoding::Windows1252)
    } else {
        None
    }
}

/// Decoding inverts encoding: under either encoding, every code-point
/// sequence the encoding can represent comes back unchanged from an encode
/// followed by a decode.
pub proof fn lemma_round_trip(enc: Encoding, cps: Seq<u32>)
    requires
        forall|k: int| 0 <= k < cps.len() ==> enc.spec_encodable(cps[k]),
    ensures
        enc.spec_decode(enc.spec_encode(cps)) == cps,
{
    match enc {
        Encoding::Utf8 => {
            assert forall|k: int| 0 <= k < cps.len() implies utf8::is_scalar_value(cps[k]) by {
                assert(enc.spec_encodable(cps[k]));
            }
            utf8::lemma_utf8_round_trip(cps);
        },
        Encoding::Windows1252 => {
            assert forall|k: int| 0 <= k < cps.len() implies windows1252::encodable(cps[k]) by {
                assert(enc.spec_encodable(cps[k]));
            }
            windows1252::lemma_windows1252_round_trip(cps);
        },
    }
}

/// Both codecs decode a sequence of ASCII-range bytes identically, to the
/// code points with the byte values themselves.
pub proof fn lemma_ascii_decode_identity(bytes: Seq<u8>)
    requires
        forall|k: int| 0 <= k < bytes.len() ==> bytes[k] <= 0x7F,
    ensures
        utf8::spec_decode(bytes) == windows1252::spec_decode(bytes),
        utf8::spec_decode(bytes) == bytes.map_values(|b: u8| b as u32),
    decreases bytes.len(),
{
    if bytes.len() == 0 {
        assert(utf8::spec_decode(bytes) =~= bytes.map_values(|b: u8| b as u32));
    } else {
        let rest = bytes.skip(1);
        assert forall|k: int| 0 <= k < rest.len() implies rest[k] <= 0x7F by {
            assert(rest[k] == bytes[k + 1]);
        }
        lemma_ascii_decode_identity(rest);
        assert(utf8::spec_decode(bytes) == seq![bytes[0] as u32] + utf8::spec_decode(rest));
        assert(utf8::spec_decode(bytes) =~= bytes.map_values(|b: u8| b as u32));
    }
    assert(windows1252::spec_decode(bytes) =~= bytes.map_values(|b: u8| b as u32));
}

/// Both codecs encode a sequence of ASCII-range code points identically, to
/// the bytes with the code-point values themselves.
pub proof fn lemma_ascii_encode_identity(cps: Seq<u32>)
    requires
        forall|k: int| 0 <= k < cps.len() ==> cps[k] <= 0x7F,
    ensures
        utf8::spec_encode(cps) == windows1252::spec_encode(cps),
        utf8::spec_encode(cps) == cps.map_values(|cp: u32| cp as u8),
    decreases cps.len(),
{
    if cps.len() == 0 {
        assert(utf8::spec_encode(cps) =~= cps.map_values(|cp: u32| cp as u8));
    } else {
        let rest = cps.skip(1);
        assert forall|k: int| 0 <= k < rest.len() implies rest[k] <= 0x7F by {
            assert(rest[k] == cps[k + 1]);
        }
        lemma_ascii_encode_identity(rest);
        assert(utf8::spec_encode(cps) == utf8::spec_encode_scalar(cps[0]) + utf8::spec_encode(
            rest,
        ));
        assert(utf8::spec_encode(cps) =~= cps.map_values(|cp: u32| cp as u8));
    }
    assert(windows1252::spec_encode(cps) =~= cps.map_values(|cp: u32| cp as u8));
}

} // verus!
