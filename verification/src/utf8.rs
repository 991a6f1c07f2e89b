//! The UTF-8 codec: decoding per the WHATWG error-recovery model, with
//! per-lead-byte boundary tightening that rejects overlong encodings and
//! encoded surrogates, and encoding that fails on any value that is not a
//! Unicode scalar value.

use crate::codec::EncodeError;
use crate::codec::REPLACEMENT_CHARACTER;
use vstd::prelude::*;

verus! {

/// A continuation byte under the default boundaries 0x80..=0xBF.
pub open spec fn is_continuation(b: u8) -> bool {
    0x80 <= b && b <= 0xBF
}

/// The lower boundary for the byte right after the lead: tightened to 0xA0
/// after 0xE0 and to 0x90 after 0xF0, which rejects overlong encodings.
pub open spec fn continuation_low(lead: u8) -> u8 {
    if lead == 0xE0 {
        0xA0
    } else if lead == 0xF0 {
        0x90
    } else {
        0x80
    }
}

/// The upper boundary for the byte right after the lead: tightened to 0x9F
/// after 0xED, which rejects encoded surrogates, and to 0x8F after 0xF4,
/// which caps the range at 0x10FFFF.
pub open spec fn continuation_high(lead: u8) -> u8 {
    if lead == 0xED {
        0x9F
    } else if lead == 0xF4 {
        0x8F
    } else {
        0xBF
    }
}

/// The code point of a two-byte sequence.
pub open spec fn code_point_2(b0: u8, b1: u8) -> u32 {
    (((b0 as u32) & 0x1F) << 6) | ((b1 as u32) & 0x3F)
}

/// The code point of a three-byte sequence.
pub open spec fn code_point_3(b0: u8, b1: u8, b2: u8) -> u32 {
    (((b0 as u32) & 0x0F) << 12) | (((b1 as u32) & 0x3F) << 6) | ((b2 as u32) & 0x3F)
}

/// The code point of a four-byte sequence.
pub open spec fn code_point_4(b0: u8, b1: u8, b2: u8, b3: u8) -> u32 {
    (((b0 as u32) & 0x07) << 18) | (((b1 as u32) & 0x3F) << 12) | (((b2 as u32) & 0x3F) << 6) | (
    (b3 as u32) & 0x3F)
}

/// What decoding a byte sequence yields. At each position either a minimal
/// well-formed sequence starts, and its code point is emitted, or one
/// replacement character is emitted and decoding resumes: after an invalid
/// lead at the next byte, after an invalid continuation at that very byte
/// (which is re-classified from scratch), and a truncated sequence at the end
/// of input yields exactly one replacement character.
pub open spec fn spec_decode(bytes: Seq<u8>) -> Seq<u32>
    decreases bytes.len(),
{
    if bytes.len() == 0 {
        Seq::empty()
    } else {
        let b0 = bytes[0];
        if b0 <= 0x7F {
            seq![b0 as u32] + spec_decode(bytes.skip(1))
        } else if 0xC2 <= b0 && b0 <= 0xDF {
            if bytes.len() < 2 {
                seq![REPLACEMENT_CHARACTER]
            } else if is_continuation(bytes[1]) {
                seq![code_point_2(b0, bytes[1])] + spec_decode(bytes.skip(2))
            } else {
                seq![REPLACEMENT_CHARACTER] + spec_decode(bytes.skip(1))
            }
        } else if 0xE0 <= b0 && b0 <= 0xEF {
            if bytes.len() < 2 {
                seq![REPLACEMENT_CHARACTER]
            } else if !(continuation_low(b0) <= bytes[1] && bytes[1] <= continuation_high(b0)) {
                seq![REPLACEMENT_CHARACTER] + spec_decode(bytes.skip(1))
            } else if bytes.len() < 3 {
                seq![REPLACEMENT_CHARACTER]
            } else if !is_continuation(bytes[2]) {
                seq![REPLACEMENT_CHARACTER] + spec_decode(bytes.skip(2))
            } else {
                seq![code_point_3(b0, bytes[1], bytes[2])] + spec_decode(bytes.skip(3))
            }
        } else if 0xF0 <= b0 && b0 <= 0xF4 {
            if bytes.len() < 2 {
                seq![REPLACEMENT_CHARACTER]
            } else if !(continuation_low(b0) <= bytes[1] && bytes[1] <= continuation_high(b0)) {
                seq![REPLACEMENT_CHARACTER] + spec_decode(bytes.skip(1))
            } else if bytes.len() < 3 {
                seq![REPLACEMENT_CHARACTER]
            } else if !is_continuation(bytes[2]) {
                seq![REPLACEMENT_CHARACTER] + spec_decode(bytes.skip(2))
            } else if bytes.len() < 4 {
                seq![REPLACEMENT_CHARACTER]
            } else if !is_continuation(bytes[3]) {
                seq![REPLACEMENT_CHARACTER] + spec_decode(bytes.skip(3))
            } else {
                seq![code_point_4(b0, bytes[1], bytes[2], bytes[3])] + spec_decode(bytes.skip(4))
            }
        } else {
            seq![REPLACEMENT_CHARACTER] + spec_decode(bytes.skip(1))
        }
    }
}

/// A Unicode scalar value: in range and not a surrogate. Exactly these code
/// points have a UTF-8 encoding.
pub open spec fn is_scalar_value(cp: u32) -> bool {
    cp <= 0x10FFFF && !(0xD800 <= cp && cp <= 0xDFFF)
}

/// The UTF-8 encoding of one scalar value, one to four bytes by range.
pub open spec fn spec_encode_scalar(cp: u32) -> Seq<u8> {
    if cp <= 0x7F {
        seq![cp as u8]
    } else if cp <= 0x7FF {
        seq![(0xC0u32 | (cp >> 6)) as u8, (0x80u32 | (cp & 0x3F)) as u8]
    } else if cp <= 0xFFFF {
        seq![
            (0xE0u32 | (cp >> 12)) as u8,
            (0x80u32 | ((cp >> 6) & 0x3F)) as u8,
            (0x80u32 | (cp & 0x3F)) as u8,
        ]
    } else {
        seq![
            (0xF0u32 | (cp >> 18)) as u8,
            (0x80u32 | ((cp >> 12) & 0x3F)) as u8,
            (0x80u32 | ((cp >> 6) & 0x3F)) as u8,
            (0x80u32 | (cp & 0x3F)) as u8,
        ]
    }
}

/// The UTF-8 encoding of a sequence of scalar values.
pub open spec fn spec_encode(cps: Seq<u32>) -> Seq<u8>
    decreases cps.len(),
{
    if cps.len() == 0 {
        Seq::empty()
    } else {
        spec_encode_scalar(cps[0]) + spec_encode(cps.skip(1))
    }
}

proof fn lemma_skip_skip<A>(s: Seq<A>, a: int, b: int)
    requires
        0 <= a,
        0 <= b,
        a + b <= s.len(),
    ensures
        s.skip(a).skip(b) == s.skip(a + b),
{
    assert(s.skip(a).skip(b) =~= s.skip(a + b));
}

/// Decodes a byte sequence to code points. Never fails: malformed input
/// yields replacement characters as `spec_decode` states.
pub fn decode_utf8(bytes: &Vec<u8>) -> (r: Vec<u32>)
    ensures
        r@ == spec_decode(bytes@),
{
    let n = bytes.len();
    let mut out: Vec<u32> = Vec::new();
    let mut i: usize = 0;
    proof {
        assert(bytes@.skip(0) =~= bytes@);
    }
    while i < n
        invariant
            n == bytes@.len(),
            i <= n,
            out@ + spec_decode(bytes@.skip(i as int)) == spec_decode(bytes@),
        decreases n - i,
    {
        let ghost s = bytes@.skip(i as int);
        let ghost out0 = out@;
        let b0 = bytes[i];
        proof {
            assert(s[0] == b0);
            assert(s.len() == n - i);
        }
        if b0 <= 0x7F {
            out.push(b0 as u32);
            proof {
                lemma_skip_skip(bytes@, i as int, 1);
                assert(spec_decode(s) == seq![b0 as u32] + spec_decode(bytes@.skip(i as int + 1)));
                assert(out@ + spec_decode(bytes@.skip(i as int + 1)) =~= out0 + spec_decode(s));
            }
            i = i + 1;
        } else if 0xC2 <= b0 && b0 <= 0xDF {
            if i + 1 >= n {
                out.push(REPLACEMENT_CHARACTER);
                proof {
                    assert(spec_decode(s) =~= seq![REPLACEMENT_CHARACTER]);
                    assert(bytes@.skip(n as int) =~= Seq::<u8>::empty());
                    assert(out@ + spec_decode(bytes@.skip(n as int)) =~= out0 + spec_decode(s));
                }
                i = n;
            } else {
                let b1 = bytes[i + 1];
                proof {
                    assert(s[1] == b1);
                }
                if 0x80 <= b1 && b1 <= 0xBF {
                    let cp: u32 = (((b0 as u32) & 0x1F) << 6) | ((b1 as u32) & 0x3F);
                    out.push(cp);
                    proof {
                        lemma_skip_skip(bytes@, i as int, 2);
                        assert(spec_decode(s) == seq![cp] + spec_decode(bytes@.skip(i as int + 2)));
                        assert(out@ + spec_decode(bytes@.skip(i as int + 2)) =~= out0 + spec_decode(
                            s,
                        ));
                    }
                    i = i + 2;
                } else {
                    out.push(REPLACEMENT_CHARACTER);
                    proof {
                        lemma_skip_skip(bytes@, i as int, 1);
                        assert(spec_decode(s) == seq![REPLACEMENT_CHARACTER] + spec_decode(
                            bytes@.skip(i as int + 1),
                        ));
                        assert(out@ + spec_decode(bytes@.skip(i as int + 1)) =~= out0 + spec_decode(
                            s,
                        ));
                    }
                    i = i + 1;
                }
            }
        } else if (0xE0 <= b0 && b0 <= 0xEF) || (0xF0 <= b0 && b0 <= 0xF4) {
            let four: bool = b0 >= 0xF0;
            let lo: u8 = if b0 == 0xE0 {
                0xA0
            } else if b0 == 0xF0 {
                0x90
            } else {
                0x80
            };
            let hi: u8 = if b0 == 0xED {
                0x9F
            } else if b0 == 0xF4 {
                0x8F
            } else {
                0xBF
            };
            proof {
                assert(lo == continuation_low(b0));
                assert(hi == continuation_high(b0));
            }
            if i + 1 >= n {
                out.push(REPLACEMENT_CHARACTER);
                proof {
                    assert(spec_decode(s) =~= seq![REPLACEMENT_CHARACTER]);
                    assert(bytes@.skip(n as int) =~= Seq::<u8>::empty());
                    assert(out@ + spec_decode(bytes@.skip(n as int)) =~= out0 + spec_decode(s));
                }
                i = n;
            } else {
                let b1 = bytes[i + 1];
                proof {
                    assert(s[1] == b1);
                }
                if !(lo <= b1 && b1 <= hi) {
                    out.push(REPLACEMENT_CHARACTER);
                    proof {
                        lemma_skip_skip(bytes@, i as int, 1);
                        assert(spec_decode(s) == seq![REPLACEMENT_CHARACTER] + spec_decode(
                            bytes@.skip(i as int + 1),
                        ));
                        assert(out@ + spec_decode(bytes@.skip(i as int + 1)) =~= out0 + spec_decode(
                            s,
                        ));
                    }
                    i = i + 1;
                } else if i + 2 >= n {
                    out.push(REPLACEMENT_CHARACTER);
                    proof {
                        assert(spec_decode(s) =~= seq![REPLACEMENT_CHARACTER]);
                        assert(bytes@.skip(n as int) =~= Seq::<u8>::empty());
                        assert(out@ + spec_decode(bytes@.skip(n as int)) =~= out0 + spec_decode(s));
                    }
                    i = n;
                } else {
                    let b2 = bytes[i + 2];
                    proof {
                        assert(s[2] == b2);
                    }
                    if !(0x80 <= b2 && b2 <= 0xBF) {
                        out.push(REPLACEMENT_CHARACTER);
                        proof {
                            lemma_skip_skip(bytes@, i as int, 2);
                            assert(spec_decode(s) == seq![REPLACEMENT_CHARACTER] + spec_decode(
                                bytes@.skip(i as int + 2),
                            ));
                            assert(out@ + spec_decode(bytes@.skip(i as int + 2)) =~= out0
                                + spec_decode(s));
                        }
                        i = i + 2;
                    } else if !four {
                        let cp: u32 = (((b0 as u32) & 0x0F) << 12) | (((b1 as u32) & 0x3F) << 6) | (
                        (b2 as u32) & 0x3F);
                        out.push(cp);
                        proof {
                            lemma_skip_skip(bytes@, i as int, 3);
                            assert(spec_decode(s) == seq![cp] + spec_decode(
                                bytes@.skip(i as int + 3),
                            ));
                            assert(out@ + spec_decode(bytes@.skip(i as int + 3)) =~= out0
                                + spec_decode(s));
                        }
                        i = i + 3;
                    } else if i + 3 >= n {
                        out.push(REPLACEMENT_CHARACTER);
                        proof {
                            assert(spec_decode(s) =~= seq![REPLACEMENT_CHARACTER]);
                            assert(bytes@.skip(n as int) =~= Seq::<u8>::empty());
                            assert(out@ + spec_decode(bytes@.skip(n as int)) =~= out0 + spec_decode(
                                s,
                            ));
                        }
                        i = n;
                    } else {
                        let b3 = bytes[i + 3];
                        proof {
                            assert(s[3] == b3);
                        }
                        if !(0x80 <= b3 && b3 <= 0xBF) {
                            out.push(REPLACEMENT_CHARACTER);
                            proof {
                                lemma_skip_skip(bytes@, i as int, 3);
                                assert(spec_decode(s) == seq![REPLACEMENT_CHARACTER] + spec_decode(
                                    bytes@.skip(i as int + 3),
                                ));
                                assert(out@ + spec_decode(bytes@.skip(i as int + 3)) =~= out0
                                    + spec_decode(s));
                            }
                            i = i + 3;
                        } else {
                            let cp: u32 = (((b0 as u32) & 0x07) << 18) | (((b1 as u32) & 0x3F)
                                << 12) | (((b2 as u32) & 0x3F) << 6) | ((b3 as u32) & 0x3F);
                            out.push(cp);
                            proof {
                                lemma_skip_skip(bytes@, i as int, 4);
                                assert(spec_decode(s) == seq![cp] + spec_decode(
                                    bytes@.skip(i as int + 4),
                                ));
                                assert(out@ + spec_decode(bytes@.skip(i as int + 4)) =~= out0
                                    + spec_decode(s));
                            }
                            i = i + 4;
                        }
                    }
                }
            }
        } else {
            out.push(REPLACEMENT_CHARACTER);
            proof {
                lemma_skip_skip(bytes@, i as int, 1);
                assert(spec_decode(s) == seq![REPLACEMENT_CHARACTER] + spec_decode(
                    bytes@.skip(i as int + 1),
                ));
                assert(out@ + spec_decode(bytes@.skip(i as int + 1)) =~= out0 + spec_decode(s));
            }
            i = i + 1;
        }
    }
    proof {
        assert(bytes@.skip(n as int) =~= Seq::<u8>::empty());
        assert(out@ + Seq::<u32>::empty() =~= out@);
    }
    out
}

/// Encodes a sequence of code points. Succeeds exactly when every code point
/// is a Unicode scalar value; a surrogate or out-of-range value is the
/// terminal failure `InvalidCodePoint`, with no partial output.
pub fn encode_utf8(cps: &Vec<u32>) -> (r: Result<Vec<u8>, EncodeError>)
    ensures
        r is Ok <==> (forall|k: int| 0 <= k < cps@.len() ==> is_scalar_value(cps@[k])),
        r matches Ok(out) ==> out@ == spec_encode(cps@),
        r matches Err(e) ==> e == EncodeError::InvalidCodePoint,
{
    let n = cps.len();
    let mut out: Vec<u8> = Vec::new();
    let mut i: usize = 0;
    proof {
        assert(cps@.skip(0) =~= cps@);
    }
    while i < n
        invariant
            n == cps@.len(),
            i <= n,
            forall|k: int| 0 <= k < i ==> is_scalar_value(cps@[k]),
            out@ + spec_encode(cps@.skip(i as int)) == spec_encode(cps@),
        decreases n - i,
    {
        let ghost s = cps@.skip(i as int);
        let ghost out0 = out@;
        let cp = cps[i];
        proof {
            assert(s[0] == cp);
        }
        if (0xD800 <= cp && cp <= 0xDFFF) || cp > 0x10FFFF {
            proof {
                assert(!is_scalar_value(cps@[i as int]));
            }
            return Err(EncodeError::InvalidCodePoint);
        }
        if cp <= 0x7F {
            out.push(cp as u8);
        } else if cp <= 0x7FF {
            out.push((0xC0u32 | (cp >> 6)) as u8);
            out.push((0x80u32 | (cp & 0x3F)) as u8);
        } else if cp <= 0xFFFF {
            out.push((0xE0u32 | (cp >> 12)) as u8);
            out.push((0x80u32 | ((cp >> 6) & 0x3F)) as u8);
            out.push((0x80u32 | (cp & 0x3F)) as u8);
        } else {
            out.push((0xF0u32 | (cp >> 18)) as u8);
            out.push((0x80u32 | ((cp >> 12) & 0x3F)) as u8);
            out.push((0x80u32 | ((cp >> 6) & 0x3F)) as u8);
            out.push((0x80u32 | (cp & 0x3F)) as u8);
        }
        proof {
            lemma_skip_skip(cps@, i as int, 1);
            assert(out@ =~= out0 + spec_encode_scalar(cp));
            assert(spec_encode(s) == spec_encode_scalar(cp) + spec_encode(
                cps@.skip(i as int + 1),
            ));
            assert(out@ + spec_encode(cps@.skip(i as int + 1)) =~= out0 + spec_encode(s));
        }
        i = i + 1;
    }
    proof {
        assert(cps@.skip(n as int) =~= Seq::<u32>::empty());
        assert(out@ + Seq::<u8>::empty() =~= out@);
    }
    Ok(out)
}

proof fn lemma_decode_encoded_scalar(cp: u32, tail: Seq<u8>)
    requires
        is_scalar_value(cp),
    ensures
        spec_decode(spec_encode_scalar(cp) + tail) == seq![cp] + spec_decode(tail),
{
    let s = spec_encode_scalar(cp) + tail;
    if cp <= 0x7F {
        let b0 = cp as u8;
        assert(b0 <= 0x7F && b0 as u32 == cp) by (bit_vector)
            requires
                b0 == cp as u8,
                cp <= 0x7F,
        ;
        assert(s[0] == b0);
        assert(s.skip(1) =~= tail);
        assert(spec_decode(s) == seq![b0 as u32] + spec_decode(tail));
    } else if cp <= 0x7FF {
        let b0 = (0xC0u32 | (cp >> 6)) as u8;
        let b1 = (0x80u32 | (cp & 0x3F)) as u8;
        assert(0xC2 <= b0 && b0 <= 0xDF && 0x80 <= b1 && b1 <= 0xBF && ((((b0 as u32) & 0x1F) << 6)
            | ((b1 as u32) & 0x3F)) == cp) by (bit_vector)
            requires
                b0 == (0xC0u32 | (cp >> 6)) as u8,
                b1 == (0x80u32 | (cp & 0x3F)) as u8,
                0x80 <= cp && cp <= 0x7FF,
        ;
        assert(s[0] == b0 && s[1] == b1);
        assert(s.skip(2) =~= tail);
        assert(spec_decode(s) == seq![code_point_2(b0, b1)] + spec_decode(tail));
    } else if cp <= 0xFFFF {
        let b0 = (0xE0u32 | (cp >> 12)) as u8;
        let b1 = (0x80u32 | ((cp >> 6) & 0x3F)) as u8;
        let b2 = (0x80u32 | (cp & 0x3F)) as u8;
        assert(0xE0 <= b0 && b0 <= 0xEF && 0x80 <= b1 && b1 <= 0xBF && 0x80 <= b2 && b2 <= 0xBF && (
        b0 == 0xE0 ==> b1 >= 0xA0) && (b0 == 0xED ==> b1 <= 0x9F) && ((((b0 as u32) & 0x0F) << 12)
            | (((b1 as u32) & 0x3F) << 6) | ((b2 as u32) & 0x3F)) == cp) by (bit_vector)
            requires
                b0 == (0xE0u32 | (cp >> 12)) as u8,
                b1 == (0x80u32 | ((cp >> 6) & 0x3F)) as u8,
                b2 == (0x80u32 | (cp & 0x3F)) as u8,
                0x800 <= cp && cp <= 0xFFFF,
                !(0xD800 <= cp && cp <= 0xDFFF),
        ;
        assert(continuation_low(b0) <= b1 && b1 <= continuation_high(b0));
        assert(s[0] == b0 && s[1] == b1 && s[2] == b2);
        assert(s.skip(3) =~= tail);
        assert(spec_decode(s) == seq![code_point_3(b0, b1, b2)] + spec_decode(tail));
    } else {
        let b0 = (0xF0u32 | (cp >> 18)) as u8;
        let b1 = (0x80u32 | ((cp >> 12) & 0x3F)) as u8;
        let b2 = (0x80u32 | ((cp >> 6) & 0x3F)) as u8;
        let b3 = (0x80u32 | (cp & 0x3F)) as u8;
        assert(0xF0 <= b0 && b0 <= 0xF4 && 0x80 <= b1 && b1 <= 0xBF && 0x80 <= b2 && b2 <= 0xBF
            && 0x80 <= b3 && b3 <= 0xBF && (b0 == 0xF0 ==> b1 >= 0x90) && (b0 == 0xF4 ==> b1
            <= 0x8F) && ((((b0 as u32) & 0x07) << 18) | (((b1 as u32) & 0x3F) << 12) | (((
        b2 as u32) & 0x3F) << 6) | ((b3 as u32) & 0x3F)) == cp) by (bit_vector)
            requires
                b0 == (0xF0u32 | (cp >> 18)) as u8,
                b1 == (0x80u32 | ((cp >> 12) & 0x3F)) as u8,
                b2 == (0x80u32 | ((cp >> 6) & 0x3F)) as u8,
                b3 == (0x80u32 | (cp & 0x3F)) as u8,
                0x10000 <= cp && cp <= 0x10FFFF,
        ;
        assert(continuation_low(b0) <= b1 && b1 <= continuation_high(b0));
        assert(s[0] == b0 && s[1] == b1 && s[2] == b2 && s[3] == b3);
        assert(s.skip(4) =~= tail);
        assert(spec_decode(s) == seq![code_point_4(b0, b1, b2, b3)] + spec_decode(tail));
    }
}

/// Decoding inverts encoding: every sequence of Unicode scalar values comes
/// back unchanged from a UTF-8 encode followed by a decode.
pub proof fn lemma_utf8_round_trip(cps: Seq<u32>)
    requires
        forall|k: int| 0 <= k < cps.len() ==> is_scalar_value(cps[k]),
    ensures
        spec_decode(spec_encode(cps)) == cps,
    decreases cps.len(),
{
    if cps.len() == 0 {
        assert(spec_decode(spec_encode(cps)) =~= cps);
    } else {
        let rest = cps.skip(1);
        assert forall|k: int| 0 <= k < rest.len() implies is_scalar_value(rest[k]) by {
            assert(rest[k] == cps[k + 1]);
        }
        lemma_utf8_round_trip(rest);
        lemma_decode_encoded_scalar(cps[0], spec_encode(rest));
        assert(spec_encode(cps) == spec_encode_scalar(cps[0]) + spec_encode(rest));
        assert(seq![cps[0]] + rest =~= cps);
    }
}

/// A lead byte that begins a multi-byte sequence.
pub open spec fn is_multibyte_lead(b: u8) -> bool {
    (0xC2 <= b && b <= 0xDF) || (0xE0 <= b && b <= 0xEF) || (0xF0 <= b && b <= 0xF4)
}

/// How many bytes the sequence begun by a multi-byte lead calls for.
pub open spec fn sequence_length(b: u8) -> int {
    if 0xC2 <= b && b <= 0xDF {
        2
    } else if 0xE0 <= b && b <= 0xEF {
        3
    } else {
        4
    }
}

/// A single truncated sequence: a multi-byte lead followed by in-boundary
/// continuation bytes, but fewer than the lead calls for.
pub open spec fn is_truncated_sequence(bytes: Seq<u8>) -> bool {
    &&& bytes.len() >= 1
    &&& is_multibyte_lead(bytes[0])
    &&& bytes.len() < sequence_length(bytes[0])
    &&& (bytes.len() >= 2 ==> continuation_low(bytes[0]) <= bytes[1] && bytes[1]
        <= continuation_high(bytes[0]))
    &&& (bytes.len() >= 3 ==> is_continuation(bytes[2]))
}

/// A byte sequence that ends mid way through a multi-byte sequence decodes
/// to exactly one replacement character, whatever the lead byte was and
/// however many of its continuation bytes arrived.
pub proof fn lemma_truncated_decodes_to_one_replacement(bytes: Seq<u8>)
    requires
        is_truncated_sequence(bytes),
    ensures
        spec_decode(bytes) == seq![REPLACEMENT_CHARACTER],
{
}

} // verus!
