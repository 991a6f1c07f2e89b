//! The Windows-1252 codec: a byte-by-byte scan over the index table. Bytes
//! up to 0x7F pass through unchanged in both directions; high bytes go
//! through the table, and decoding substitutes the replacement character for
//! the table's unmapped slots.

use crate::codec::EncodeError;
use crate::codec::REPLACEMENT_CHARACTER;
use crate::index;
use vstd::prelude::*;

verus! {

/// What one byte decodes to: itself in the ASCII range, its table entry
/// above it, and the replacement character where the table has no entry.
pub open spec fn decode_byte(b: u8) -> u32 {
    if b <= 0x7F {
        b as u32
    } else {
        match index::table_entry(b) {
            Some(cp) => cp,
            None => REPLACEMENT_CHARACTER,
        }
    }
}

/// What decoding a byte sequence yields: each byte independently.
pub open spec fn spec_decode(bytes: Seq<u8>) -> Seq<u32> {
    bytes.map_values(|b: u8| decode_byte(b))
}

/// A code point the encoding can represent: ASCII, or present in the table.
pub open spec fn encodable(cp: u32) -> bool {
    cp <= 0x7F || index::reverse_entry(cp) is Some
}

/// The byte that an encodable code point encodes to.
pub open spec fn encode_scalar(cp: u32) -> u8 {
    if cp <= 0x7F {
        cp as u8
    } else {
        match index::reverse_entry(cp) {
            Some(b) => b,
            None => 0,
        }
    }
}

/// The encoding of a sequence of encodable code points: each independently.
pub open spec fn spec_encode(cps: Seq<u32>) -> Seq<u8> {
    cps.map_values(|cp: u32| encode_scalar(cp))
}

/// Decodes a byte sequence to code points. Never fails: a byte at an
/// unmapped table slot yields the replacement character.
pub fn decode_windows1252(bytes: &Vec<u8>) -> (r: Vec<u32>)
    ensures
        r@ == spec_decode(bytes@),
{
    let n = bytes.len();
    let mut out: Vec<u32> = Vec::new();
    let mut i: usize = 0;
    while i < n
        invariant
            n == bytes@.len(),
            i <= n,
            out@ == spec_decode(bytes@.take(i as int)),
        decreases n - i,
    {
        let b = bytes[i];
        if b <= 0x7F {
            out.push(b as u32);
        } else {
            match index::lookup(b) {
                Some(cp) => out.push(cp),
                None => out.push(REPLACEMENT_CHARACTER),
            }
        }
        proof {
            assert(spec_decode(bytes@.take(i as int + 1)) =~= spec_decode(
                bytes@.take(i as int),
            ).push(decode_byte(bytes@[i as int])));
        }
        i = i + 1;
    }
    proof {
        assert(bytes@.take(n as int) =~= bytes@);
    }
    out
}

/// Encodes a sequence of code points. Succeeds exactly when every code point
/// is representable; the first one that is not is the terminal failure
/// `Unrepresentable`, with no partial output.
pub fn encode_windows1252(cps: &Vec<u32>) -> (r: Result<Vec<u8>, EncodeError>)
    ensures
        r is Ok <==> (forall|k: int| 0 <= k < cps@.len() ==> encodable(cps@[k])),
        r matches Ok(out) ==> out@ == spec_encode(cps@),
        r matches Err(e) ==> e == EncodeError::Unrepresentable,
{
    let n = cps.len();
    let mut out: Vec<u8> = Vec::new();
    let mut i: usize = 0;
    while i < n
        invariant
            n == cps@.len(),
            i <= n,
            forall|k: int| 0 <= k < i ==> encodable(cps@[k]),
            out@ == spec_encode(cps@.take(i as int)),
        decreases n - i,
    {
        let cp = cps[i];
        if cp <= 0x7F {
            out.push(cp as u8);
        } else {
            match index::reverse_lookup(cp) {
                Some(b) => out.push(b),
                None => {
                    proof {
                        assert(!encodable(cps@[i as int]));
                    }
                    return Err(EncodeError::Unrepresentable);
                },
            }
        }
        proof {
            assert(spec_encode(cps@.take(i as int + 1)) =~= spec_encode(cps@.take(i as int)).push(
                encode_scalar(cps@[i as int]),
            ));
        }
        i = i + 1;
    }
    proof {
        assert(cps@.take(n as int) =~= cps@);
    }
    Ok(out)
}

/// Decoding inverts encoding: every sequence of representable code points
/// comes back unchanged from a Windows-1252 encode followed by a decode.
pub proof fn lemma_windows1252_round_trip(cps: Seq<u32>)
    requires
        forall|k: int| 0 <= k < cps.len() ==> encodable(cps[k]),
    ensures
        spec_decode(spec_encode(cps)) == cps,
{
    assert forall|k: int| 0 <= k < cps.len() implies decode_byte(encode_scalar(cps[k])) == cps[
        k
    ] by {
        let cp = cps[k];
        if cp <= 0x7F {
        } else {
            index::lemma_reverse_entry(cp);
        }
    }
    assert(spec_decode(spec_encode(cps)) =~= cps);
}

} // verus!
