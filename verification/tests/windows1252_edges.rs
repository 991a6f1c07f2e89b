use webencoding::codec::EncodeError;
use webencoding::index::lookup;
use webencoding::index::reverse_lookup;
use webencoding::windows1252::decode_windows1252;
use webencoding::windows1252::encode_windows1252;

const REPLACEMENT: u32 = 0xFFFD;

#[test]
fn test_unmapped_bytes_decode_to_replacement() {
    assert_eq!(
        decode_windows1252(&vec![0x81, 0x8D, 0x8F, 0x90, 0x9D]),
        vec![REPLACEMENT, REPLACEMENT, REPLACEMENT, REPLACEMENT, REPLACEMENT]
    );
}

#[test]
fn test_high_range_decodes_to_same_value() {
    assert_eq!(decode_windows1252(&vec![0xA0, 0xE9, 0xFF]), vec![0xA0, 0xE9, 0xFF]);
}

#[test]
fn test_special_entries() {
    assert_eq!(lookup(0x80), Some(0x20AC));
    assert_eq!(lookup(0x9F), Some(0x0178));
    assert_eq!(lookup(0x8E), Some(0x017D));
    assert_eq!(lookup(0x81), None);
    assert_eq!(reverse_lookup(0x20AC), Some(0x80));
    assert_eq!(reverse_lookup(0x0152), Some(0x8C));
    assert_eq!(reverse_lookup(0xE9), Some(0xE9));
    // Code points that only the table's unmapped slots could have covered,
    // and ones no single-byte encoding reaches at all.
    assert_eq!(reverse_lookup(0x81), None);
    assert_eq!(reverse_lookup(0x4ECA), None);
    assert_eq!(reverse_lookup(0x100), None);
}

#[test]
fn test_encode_unmappable_fails() {
    assert_eq!(
        encode_windows1252(&vec![0x100]),
        Err(EncodeError::Unrepresentable)
    );
    // The C1-control gap of the table is not representable either.
    assert_eq!(
        encode_windows1252(&vec![0x81]),
        Err(EncodeError::Unrepresentable)
    );
    // No partial output: the whole operation fails even after valid values.
    assert_eq!(
        encode_windows1252(&vec![0x41, 0x4ECA]),
        Err(EncodeError::Unrepresentable)
    );
}

#[test]
fn test_encode_table_entries() {
    assert_eq!(
        encode_windows1252(&vec![0x20AC, 0x2122, 0x0161, 0xFF]),
        Ok(vec![0x80, 0x99, 0x9A, 0xFF])
    );
}
