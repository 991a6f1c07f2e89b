use webencoding::codec::EncodeError;
use webencoding::utf8::decode_utf8;
use webencoding::utf8::encode_utf8;

const REPLACEMENT: u32 = 0xFFFD;

#[test]
fn test_truncated_lone_lead() {
    assert_eq!(decode_utf8(&vec![0xE2]), vec![REPLACEMENT]);
    assert_eq!(decode_utf8(&vec![0xC2]), vec![REPLACEMENT]);
    assert_eq!(decode_utf8(&vec![0xF0]), vec![REPLACEMENT]);
}

#[test]
fn test_truncated_after_prefix() {
    assert_eq!(decode_utf8(&vec![72, 0xE2, 0x82]), vec![72, REPLACEMENT]);
    assert_eq!(
        decode_utf8(&vec![72, 0xF0, 0x90, 0x80]),
        vec![72, REPLACEMENT]
    );
}

#[test]
fn test_overlong_rejected() {
    // 0xE0 0x80 0x80 would be an overlong U+0000: the first continuation
    // byte falls below the tightened lower boundary 0xA0, so the lead is
    // aborted and both continuation bytes are re-classified as invalid leads.
    assert_eq!(
        decode_utf8(&vec![0xE0, 0x80, 0x80]),
        vec![REPLACEMENT, REPLACEMENT, REPLACEMENT]
    );
    // 0xC0/0xC1 can only begin overlong forms and are invalid leads outright.
    assert_eq!(decode_utf8(&vec![0xC0, 0xAF]), vec![REPLACEMENT, REPLACEMENT]);
}

#[test]
fn test_encoded_surrogate_rejected() {
    // 0xED 0xA0 0x80 would be U+D800: the first continuation byte lies above
    // the tightened upper boundary 0x9F.
    assert_eq!(
        decode_utf8(&vec![0xED, 0xA0, 0x80]),
        vec![REPLACEMENT, REPLACEMENT, REPLACEMENT]
    );
}

#[test]
fn test_above_range_rejected() {
    // 0xF4 0x90 0x80 0x80 would be U+110000: the first continuation byte
    // lies above the tightened upper boundary 0x8F.
    assert_eq!(
        decode_utf8(&vec![0xF4, 0x90, 0x80, 0x80]),
        vec![REPLACEMENT, REPLACEMENT, REPLACEMENT, REPLACEMENT]
    );
    // 0xF5..0xFF are invalid leads.
    assert_eq!(decode_utf8(&vec![0xF5]), vec![REPLACEMENT]);
}

#[test]
fn test_lone_continuation() {
    assert_eq!(decode_utf8(&vec![0x80]), vec![REPLACEMENT]);
    assert_eq!(decode_utf8(&vec![0xBF, 0x41]), vec![REPLACEMENT, 0x41]);
}

#[test]
fn test_boundary_code_points() {
    assert_eq!(encode_utf8(&vec![0x7F]), Ok(vec![0x7F]));
    assert_eq!(encode_utf8(&vec![0x80]), Ok(vec![0xC2, 0x80]));
    assert_eq!(encode_utf8(&vec![0x7FF]), Ok(vec![0xDF, 0xBF]));
    assert_eq!(encode_utf8(&vec![0x800]), Ok(vec![0xE0, 0xA0, 0x80]));
    assert_eq!(encode_utf8(&vec![0xFFFF]), Ok(vec![0xEF, 0xBF, 0xBF]));
    assert_eq!(encode_utf8(&vec![0x10000]), Ok(vec![0xF0, 0x90, 0x80, 0x80]));
    assert_eq!(
        encode_utf8(&vec![0x10FFFF]),
        Ok(vec![0xF4, 0x8F, 0xBF, 0xBF])
    );
}

#[test]
fn test_encode_surrogate_fails() {
    assert_eq!(
        encode_utf8(&vec![0xD800]),
        Err(EncodeError::InvalidCodePoint)
    );
    assert_eq!(
        encode_utf8(&vec![0xDFFF]),
        Err(EncodeError::InvalidCodePoint)
    );
    // No partial output: the whole operation fails even after valid values.
    assert_eq!(
        encode_utf8(&vec![0x41, 0xDABC, 0x42]),
        Err(EncodeError::InvalidCodePoint)
    );
}

#[test]
fn test_encode_out_of_range_fails() {
    assert_eq!(
        encode_utf8(&vec![0x110000]),
        Err(EncodeError::InvalidCodePoint)
    );
    assert_eq!(
        encode_utf8(&vec![u32::MAX]),
        Err(EncodeError::InvalidCodePoint)
    );
}
